pub mod delta_time;
pub mod midi_command_list_body;
pub mod midi_command_list_header;
pub mod midi_packet;
pub mod midi_packet_header;
pub mod midi_timed_command;
pub mod recovery_journal;
