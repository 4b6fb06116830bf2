pub mod program_change_chapter;
pub mod recovery_journal;
pub mod channel_journal;
