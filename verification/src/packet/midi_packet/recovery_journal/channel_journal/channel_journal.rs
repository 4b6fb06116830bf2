//! The chapter types of a channel journal, and a channel journal's header.
use crate::packet::midi_packet::recovery_journal::program_change_chapter::ProgramChangeChapter;
use crate::packet::midi_packets::recovery_journal::channel_journal::control_change_chapter::ControlChangeChapter;
use vstd::prelude::*;

verus! {

#[derive(Debug, Clone, Copy, Hash, PartialEq, Eq, Structural)]
pub enum ChannelJournalType {
    ProgramChange,
    ControlChange,
    ParameterSystem,
    PitchWheel,
    NoteOffOn,
    NoteCommandExtras,
    ChannelAftertouch,
    PolyAftertouch,
}

/// The S, Y, A and H flags with the channel count, and the checkpoint packet
/// sequence number.
#[derive(Debug, Clone, Copy, PartialEq, Eq, Structural)]
pub struct ChannelJournal {
    flags_and_channel_count: u8,
    checkpoint_packet_sequence_number: u16,
}

#[derive(Debug)]
pub enum ChannelJournalChapter {
    ProgramChange(ProgramChangeChapter),
    ControlChange(ControlChangeChapter),
    ParameterSystem,
    PitchWheel,
    NoteOffOn,
    NoteCommandExtras,
    ChannelAftertouch,
    PolyAftertouch,
}

} // verus!
