pub mod util;
pub mod midi_command;
pub mod delta_time;
pub mod midi_timed_command;
pub mod midi_command_list_body;
pub mod midi_command_list_header;
pub mod midi_packet_header;
pub mod midi_command_zero_alloc;
pub mod delta_time_zero_alloc;
pub mod midi_timed_command_zero_alloc;
pub mod midi_packet_header_zero_alloc;
pub mod midi_command_iterator;
pub mod midi_packet;
pub mod midi_packet_zero_alloc;
pub mod midi_packet_builder;
pub mod recovery_journal;
pub mod midi_message_ext;
pub mod rtp_midi_message;
