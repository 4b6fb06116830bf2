pub mod channel_journal;
pub mod program_change_chapter;
