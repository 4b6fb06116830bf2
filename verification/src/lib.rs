//! Parsing and serialisation of RTP-MIDI (AppleMIDI) packets: MIDI command
//! lists with delta times and running status, RTP headers, and the session
//! control packets, with contracts proved by Verus.
pub mod io;
pub mod endian;
pub mod packet;
pub mod packets;
pub mod stream;
pub mod buffer;
pub mod bits;
pub mod text;
pub mod util;
pub mod byte_facts;
pub mod delta_time;
pub mod midi_command;
pub mod midi_packet;
pub mod clock_sync_packet;
pub mod control_packet;
