pub mod chapter_d;
pub mod system_journal;
