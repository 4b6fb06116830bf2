pub mod midi_packets;
pub mod control_packets;
pub mod error;
pub mod packet;
