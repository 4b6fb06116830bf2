pub mod system_journal;
