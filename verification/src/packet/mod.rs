pub mod midi_packet;
pub mod midi_packets;
pub mod clock_sync_packet;
pub mod session_initiation_packet;
pub mod control_packet;
pub mod packet;
pub mod control_packets;
