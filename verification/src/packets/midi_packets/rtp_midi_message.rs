//! A message of a MIDI command list: a MIDI message, or the data of a System
//! Exclusive message.
use super::midi_message_ext::MidiMessage;
use crate::stream::ByteSink;
use bytes::BytesMut;
use vstd::prelude::*;

verus! {

#[derive(Debug, Clone, PartialEq)]
pub enum RtpMidiMessage<'a> {
    MidiMessage(MidiMessage),
    SysEx(&'a [u8]),
}

impl From<MidiMessage> for RtpMidiMessage<'_> {
    fn from(msg: MidiMessage) -> (r: Self) {
        RtpMidiMessage::MidiMessage(msg)
    }
}

impl vstd::std_specs::convert::FromSpecImpl<MidiMessage> for RtpMidiMessage<'_> {
    open spec fn obeys_from_spec() -> bool {
        true
    }

    open spec fn from_spec(v: MidiMessage) -> Self {
        RtpMidiMessage::MidiMessage(v)
    }
}

impl RtpMidiMessage<'_> {
    /// The number of bytes of the message: a MIDI message's own length, or the
    /// System Exclusive data with its two framing bytes.
    pub open spec fn spec_len(&self) -> nat {
        match self {
            RtpMidiMessage::MidiMessage(msg) => msg.spec_len(),
            RtpMidiMessage::SysEx(data) => data@.len() + 2,
        }
    }

    /// The bytes that `write` appends: a MIDI message under the running
    /// status, or 0xF0, the System Exclusive data and 0xF7.
    pub open spec fn spec_write_bytes(&self, running_status: Option<u8>) -> Seq<u8> {
        match self {
            RtpMidiMessage::MidiMessage(msg) => msg.spec_write_bytes(running_status),
            RtpMidiMessage::SysEx(data) => seq![0xF0u8] + data@ + seq![0xF7u8],
        }
    }

    pub fn len(&self) -> (n: usize)
        requires
            self.spec_len() <= usize::MAX,
        ensures
            n == self.spec_len(),
    {
        match self {
            RtpMidiMessage::MidiMessage(msg) => msg.len(),
            RtpMidiMessage::SysEx(data) => data.len() + 2,
        }
    }

    /// Never true: every message has at least one byte.
    pub fn is_empty(&self) -> (b: bool)
        requires
            self.spec_len() <= usize::MAX,
        ensures
            b == (self.spec_len() == 0),
            !b,
    {
        self.len() == 0
    }

    /// Appends the message; see `spec_write_bytes`. Of MIDI messages only
    /// channel voice messages are written.
    pub fn write(&self, bytes: &mut BytesMut, running_status: Option<u8>)
        requires
            self matches RtpMidiMessage::MidiMessage(m) ==> m.is_channel_voice() && m.wf(),
            old(bytes).sink_room() >= self.spec_len() + 3,
        ensures
            final(bytes).sink_contents() == old(bytes).sink_contents() + self.spec_write_bytes(running_status),
    {
        match self {
            RtpMidiMessage::MidiMessage(msg) => msg.write(bytes, running_status),
            RtpMidiMessage::SysEx(data) => {
                let ghost start = bytes.sink_contents();
                bytes.put_byte(0xF0);
                bytes.put_bytes(data);
                bytes.put_byte(0xF7);
                assert(bytes.sink_contents() =~= start + self.spec_write_bytes(running_status));
            },
        }
    }

    /// The status byte: the MIDI message's, or 0xF0 for System Exclusive.
    pub fn status(&self) -> (s: u8)
        ensures
            s == match self {
                RtpMidiMessage::MidiMessage(msg) => msg.spec_status(),
                RtpMidiMessage::SysEx(_) => 0xF0u8,
            },
    {
        match self {
            RtpMidiMessage::MidiMessage(msg) => msg.status(),
            RtpMidiMessage::SysEx(_) => 0xF0,
        }
    }
}

} // verus!
