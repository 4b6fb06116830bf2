pub mod channel_journal;
