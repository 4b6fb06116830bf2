pub mod clock_sync_packet;
pub mod session_initiation_packet;
pub mod control_packet;
