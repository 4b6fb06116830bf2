pub mod control_change_chapter;
