//! MIDI messages as `midi_types` models them, written to a byte buffer under a
//! running status and read from the front of a byte slice. The message's
//! fields are held as plain numbers; `midi_types` builds and reads its value
//! types for them.
use super::midi_command::sysex_end;
use super::rtp_midi_message::RtpMidiMessage;
use super::util::StatusBit;
use crate::io::{Error, ErrorKind};
use crate::stream::ByteSink;
use bytes::BytesMut;
use midi_types::{Channel, Control, Note, Program, QuarterFrame, Value14, Value7};
use vstd::prelude::*;

verus! {

/// A MIDI message: the channel voice messages with their channel (0 to 15)
/// and data values, the system common messages, and the real time messages.
/// A 14-bit value is held as its two 7-bit halves, the most significant first.
#[derive(Debug, Clone, Copy, PartialEq, Eq, Structural)]
pub enum MidiMessage {
    NoteOff(u8, u8, u8),
    NoteOn(u8, u8, u8),
    KeyPressure(u8, u8, u8),
    ControlChange(u8, u8, u8),
    ProgramChange(u8, u8),
    ChannelPressure(u8, u8),
    PitchBendChange(u8, u8, u8),
    QuarterFrame(u8),
    SongPositionPointer(u8, u8),
    SongSelect(u8),
    TuneRequest,
    TimingClock,
    Start,
    Continue,
    Stop,
    ActiveSensing,
    Reset,
}

/// `midi_types`' `Channel::from` and `u8::from(Channel)`: a channel up to 15
/// is kept as it is. Above 15 the crate's debug assertion fails, which
/// `requires` rules out.
#[verifier::external_body]
fn channel_of(channel: u8) -> (c: u8)
    requires
        channel <= 15,
    ensures
        c == channel,
{
    u8::from(Channel::from(channel))
}

/// `midi_types`' `Note::from` and `u8::from(Note)`: a note up to 127 is kept
/// as it is. Above 127 the crate's debug assertion fails, which `requires`
/// rules out.
#[verifier::external_body]
fn note_of(note: u8) -> (n: u8)
    requires
        note <= 127,
    ensures
        n == note,
{
    u8::from(Note::from(note))
}

/// `midi_types`' `Value7::from` and `u8::from(Value7)`: a value up to 127 is
/// kept as it is. Above 127 the crate's debug assertion fails, which
/// `requires` rules out.
#[verifier::external_body]
fn value7_of(value: u8) -> (v: u8)
    requires
        value <= 127,
    ensures
        v == value,
{
    u8::from(Value7::from(value))
}

/// `midi_types`' `Control::from` and `u8::from(Control)`: a controller below
/// 127 is kept as it is. From 127 on the crate's debug assertion fails, which
/// `requires` rules out.
#[verifier::external_body]
fn control_of(control: u8) -> (c: u8)
    requires
        control < 127,
    ensures
        c == control,
{
    u8::from(Control::from(control))
}

/// `midi_types`' `Program::from` and `u8::from(Program)`: a program below 127
/// is kept as it is. From 127 on the crate's debug assertion fails, which
/// `requires` rules out.
#[verifier::external_body]
fn program_of(program: u8) -> (p: u8)
    requires
        program < 127,
    ensures
        p == program,
{
    u8::from(Program::from(program))
}

/// `midi_types`' `QuarterFrame::from` and `u8::from(QuarterFrame)`: a value up
/// to 127 is kept as it is. Above 127 the crate's debug assertion fails, which
/// `requires` rules out.
#[verifier::external_body]
fn quarter_frame_of(frame: u8) -> (f: u8)
    requires
        frame <= 127,
    ensures
        f == frame,
{
    u8::from(QuarterFrame::from(frame))
}

/// `midi_types`' `Value14::from((msb, lsb))` and `<(u8, u8)>::from(Value14)`:
/// halves up to 127 are kept as they are. Above 127 the crate's debug
/// assertions fail, which `requires` rules out.
#[verifier::external_body]
fn value14_of(msb: u8, lsb: u8) -> (v: (u8, u8))
    requires
        msb <= 127,
        lsb <= 127,
    ensures
        v == (msb, lsb),
{
    <(u8, u8)>::from(Value14::from((msb, lsb)))
}

/// `midi_types`' `u16::from(Value14)` on `Value14::new(msb, lsb)`: the most
/// significant half shifted up by seven bits, plus the other. Halves above 127
/// fail the crate's debug assertions, which `requires` rules out.
#[verifier::external_body]
fn value14_raw(msb: u8, lsb: u8) -> (r: u16)
    requires
        msb <= 127,
        lsb <= 127,
    ensures
        r == msb * 128 + lsb,
{
    u16::from(Value14::new(msb, lsb))
}

/// The message that `from_status_byte` builds for a status byte other than
/// 0xF0 from `channel` and the bytes after the status; `None` for 0xF0 and
/// for the status bytes it does not read.
pub open spec fn message_of(status: u8, channel: u8, b: Seq<u8>) -> Option<MidiMessage> {
    if 0x80 <= status < 0x90 {
        Some(MidiMessage::NoteOff(channel, b[0], b[1]))
    } else if 0x90 <= status < 0xA0 {
        Some(MidiMessage::NoteOn(channel, b[0], b[1]))
    } else if 0xA0 <= status < 0xB0 {
        Some(MidiMessage::KeyPressure(channel, b[0], b[1]))
    } else if 0xB0 <= status < 0xC0 {
        Some(MidiMessage::ControlChange(channel, b[0], b[1]))
    } else if 0xC0 <= status < 0xD0 {
        Some(MidiMessage::ProgramChange(channel, b[0]))
    } else if 0xD0 <= status < 0xE0 {
        Some(MidiMessage::ChannelPressure(channel, b[0]))
    } else if 0xE0 <= status < 0xF0 {
        Some(MidiMessage::PitchBendChange(channel, b[0], b[1]))
    } else if status == 0xF1 {
        Some(MidiMessage::QuarterFrame(b[0]))
    } else if status == 0xF2 {
        Some(MidiMessage::SongPositionPointer(b[0], b[1]))
    } else if status == 0xF3 {
        Some(MidiMessage::SongSelect(b[0]))
    } else if status == 0xF6 {
        Some(MidiMessage::TuneRequest)
    } else if status == 0xF8 {
        Some(MidiMessage::TimingClock)
    } else {
        None
    }
}

/// Where the data of a System Exclusive message that starts after its status
/// byte ends: at the first 0xF7, or at the end of the bytes.
pub open spec fn sysex_data_end(b: Seq<u8>) -> nat {
    match sysex_end(b) {
        Some(e) => e,
        None => b.len(),
    }
}

/// The inputs on which `from_status_byte` neither indexes nor slices out of
/// `b` and `midi_types` accepts every value it is given.
pub open spec fn from_status_in_bounds(status: u8, channel: u8, b: Seq<u8>) -> bool {
    match message_of(status, channel, b) {
        Some(m) => b.len() + 1 >= m.spec_len() && m.accepted(),
        None => status == 0xF0 ==> sysex_data_end(b) >= 1 && b.len() < usize::MAX,
    }
}

/// The status byte and the bytes after it that `from_be_bytes` reads for
/// `bytes`: the first byte when its top bit is set, else the running status;
/// `None` when there is neither.
pub open spec fn status_and_rest(bytes: Seq<u8>, running_status: Option<u8>) -> Option<(u8, Seq<u8>)> {
    if bytes[0] >= 0x80 {
        Some((bytes[0], bytes.skip(1)))
    } else {
        match running_status {
            Some(s) => Some((s, bytes)),
            None => None,
        }
    }
}

impl MidiMessage {
    /// The number of bytes of the message, its status byte included.
    pub open spec fn spec_len(self) -> nat {
        match self {
            MidiMessage::NoteOff(..) | MidiMessage::NoteOn(..) | MidiMessage::KeyPressure(..)
            | MidiMessage::ControlChange(..) | MidiMessage::PitchBendChange(..)
            | MidiMessage::SongPositionPointer(..) => 3,
            MidiMessage::ProgramChange(..) | MidiMessage::ChannelPressure(..)
            | MidiMessage::QuarterFrame(..) | MidiMessage::SongSelect(..) => 2,
            _ => 1,
        }
    }

    pub open spec fn spec_status(self) -> u8 {
        match self {
            MidiMessage::NoteOn(c, _, _) => 0x90u8 | c,
            MidiMessage::NoteOff(c, _, _) => 0x80u8 | c,
            MidiMessage::ChannelPressure(c, _) => 0xD0u8 | c,
            MidiMessage::ControlChange(c, _, _) => 0xB0u8 | c,
            MidiMessage::ProgramChange(c, _) => 0xC0u8 | c,
            MidiMessage::KeyPressure(c, _, _) => 0xA0u8 | c,
            MidiMessage::PitchBendChange(c, _, _) => 0xE0u8 | c,
            MidiMessage::QuarterFrame(_) => 0xF1,
            MidiMessage::SongPositionPointer(..) => 0xF2,
            MidiMessage::SongSelect(_) => 0xF3,
            MidiMessage::TuneRequest => 0xF6,
            MidiMessage::TimingClock => 0xF8,
            MidiMessage::Start => 0xFA,
            MidiMessage::Continue => 0xFB,
            MidiMessage::Stop => 0xFC,
            MidiMessage::ActiveSensing => 0xFE,
            MidiMessage::Reset => 0xFF,
        }
    }

    /// A channel voice message, the only kind that `write` writes.
    pub open spec fn is_channel_voice(self) -> bool {
        ||| self is NoteOff
        ||| self is NoteOn
        ||| self is KeyPressure
        ||| self is ControlChange
        ||| self is ProgramChange
        ||| self is ChannelPressure
        ||| self is PitchBendChange
    }

    /// The values that `midi_types` can hold: channels up to 15 and data
    /// values up to 127.
    pub open spec fn wf(self) -> bool {
        match self {
            MidiMessage::NoteOff(c, k, v) | MidiMessage::NoteOn(c, k, v) | MidiMessage::KeyPressure(c, k, v)
            | MidiMessage::ControlChange(c, k, v) | MidiMessage::PitchBendChange(c, k, v) => c <= 15 && k
                <= 127 && v <= 127,
            MidiMessage::ProgramChange(c, p) | MidiMessage::ChannelPressure(c, p) => c <= 15 && p <= 127,
            MidiMessage::QuarterFrame(f) | MidiMessage::SongSelect(f) => f <= 127,
            MidiMessage::SongPositionPointer(m, l) => m <= 127 && l <= 127,
            _ => true,
        }
    }

    /// The values that `midi_types` builds its value types from without its
    /// debug assertions failing: those of `wf`, with controllers and programs
    /// below 127.
    pub open spec fn accepted(self) -> bool {
        &&& self.wf()
        &&& self matches MidiMessage::ControlChange(_, k, _) ==> k < 127
        &&& self matches MidiMessage::ProgramChange(_, p) ==> p < 127
    }

    /// The data bytes of a channel voice message.
    pub open spec fn spec_data(self) -> Seq<u8> {
        match self {
            MidiMessage::NoteOn(_, k, v) | MidiMessage::NoteOff(_, k, v) => seq![k, v],
            MidiMessage::ChannelPressure(_, p) => seq![p],
            MidiMessage::ControlChange(_, k, v) => seq![k, v],
            MidiMessage::ProgramChange(_, p) => seq![p],
            MidiMessage::KeyPressure(_, k, p) => seq![k, p],
            MidiMessage::PitchBendChange(_, m, l) => seq![m, l],
            _ => Seq::empty(),
        }
    }

    /// The bytes that `write` appends: the status byte unless it equals the
    /// running status, then the data bytes.
    pub open spec fn spec_write_bytes(self, running_status: Option<u8>) -> Seq<u8> {
        (if running_status == Some(self.spec_status()) {
            Seq::<u8>::empty()
        } else {
            seq![self.spec_status()]
        }) + self.spec_data()
    }

    /// The number of bytes of the message, its status byte included.
    pub fn len(&self) -> (n: usize)
        ensures
            n == self.spec_len(),
    {
        match self {
            MidiMessage::NoteOff(..) | MidiMessage::NoteOn(..) | MidiMessage::KeyPressure(..)
            | MidiMessage::ControlChange(..) | MidiMessage::PitchBendChange(..)
            | MidiMessage::SongPositionPointer(..) => 3,
            MidiMessage::ProgramChange(..) | MidiMessage::ChannelPressure(..)
            | MidiMessage::QuarterFrame(..) | MidiMessage::SongSelect(..) => 2,
            _ => 1,
        }
    }

    /// Appends the status byte unless it equals the running status, then the
    /// data bytes. Only channel voice messages are written.
    pub fn write(&self, bytes: &mut BytesMut, running_status: Option<u8>)
        requires
            self.is_channel_voice(),
            self.wf(),
            old(bytes).sink_room() >= 3,
        ensures
            final(bytes).sink_contents() == old(bytes).sink_contents() + self.spec_write_bytes(running_status),
            final(bytes).sink_room() == old(bytes).sink_room() - self.spec_write_bytes(running_status).len(),
    {
        let ghost start = bytes.sink_contents();
        if let Some(status_byte) = running_status {
            if status_byte != self.status() {
                bytes.put_byte(self.status());
            }
        } else {
            bytes.put_byte(self.status());
        }
        match self {
            MidiMessage::NoteOn(_channel, key, velocity) | MidiMessage::NoteOff(_channel, key, velocity) => {
                bytes.put_byte(*key);
                bytes.put_byte(*velocity);
            },
            MidiMessage::ChannelPressure(_channel, pressure) => {
                bytes.put_byte(*pressure);
            },
            MidiMessage::ControlChange(_channel, controller, value) => {
                bytes.put_byte(*controller);
                bytes.put_byte(*value);
            },
            MidiMessage::ProgramChange(_channel, program) => {
                bytes.put_byte(*program);
            },
            MidiMessage::KeyPressure(_channel, key, pressure) => {
                bytes.put_byte(*key);
                bytes.put_byte(*pressure);
            },
            MidiMessage::PitchBendChange(_channel, msb, lsb) => {
                let raw: u16 = value14_raw(*msb, *lsb);
                let hi = (raw >> 7) as u8;
                let lo = (raw & 0x7F) as u8;
                assert(hi == *msb && lo == *lsb) by (bit_vector)
                    requires
                        raw == *msb as u16 * 128 + *lsb as u16,
                        *msb <= 127,
                        *lsb <= 127,
                        hi == (raw >> 7) as u8,
                        lo == (raw & 0x7F) as u8,
                ;
                bytes.put_byte(hi);
                bytes.put_byte(lo);
            },
            _ => {},
        }
        assert(bytes.sink_contents() =~= start + self.spec_write_bytes(running_status));
    }

    /// The status byte: the message type with the channel in its low four bits
    /// for channel voice messages, else the message's own status byte.
    pub fn status(&self) -> (s: u8)
        ensures
            s == self.spec_status(),
    {
        match self {
            MidiMessage::NoteOn(channel, _, _) => 0x90 | *channel,
            MidiMessage::NoteOff(channel, _, _) => 0x80 | *channel,
            MidiMessage::ChannelPressure(channel, _) => 0xD0 | *channel,
            MidiMessage::ControlChange(channel, _, _) => 0xB0 | *channel,
            MidiMessage::ProgramChange(channel, _) => 0xC0 | *channel,
            MidiMessage::KeyPressure(channel, _, _) => 0xA0 | *channel,
            MidiMessage::PitchBendChange(channel, _, _) => 0xE0 | *channel,
            MidiMessage::QuarterFrame(_) => 0xF1,
            MidiMessage::SongPositionPointer(..) => 0xF2,
            MidiMessage::SongSelect(_) => 0xF3,
            MidiMessage::TuneRequest => 0xF6,
            MidiMessage::TimingClock => 0xF8,
            MidiMessage::Start => 0xFA,
            MidiMessage::Continue => 0xFB,
            MidiMessage::Stop => 0xFC,
            MidiMessage::ActiveSensing => 0xFE,
            MidiMessage::Reset => 0xFF,
        }
    }

    /// Builds the message for `status_byte` from `channel` and the bytes after
    /// the status byte, and returns it with the bytes after it; see
    /// `message_of`. For 0xF0 the System Exclusive data is taken from the
    /// second byte up to the first 0xF7 (or the end), and the bytes after it
    /// start at that 0xF7. Fails with `InvalidData` for a status byte it does
    /// not read.
    pub fn from_status_byte(status_byte: u8, channel: u8, bytes: &[u8]) -> (r: Result<(RtpMidiMessage<'_>, &[u8]), Error>)
        requires
            from_status_in_bounds(status_byte, channel, bytes@),
        ensures
            match message_of(status_byte, channel, bytes@) {
                Some(m) => r matches Ok((RtpMidiMessage::MidiMessage(x), rest)) && x == m && rest@ == bytes@.skip(
                    m.spec_len() - 1,
                ),
                None => if status_byte == 0xF0 {
                    r matches Ok((RtpMidiMessage::SysEx(d), rest)) && d@ == bytes@.subrange(
                        1,
                        sysex_data_end(bytes@) as int,
                    ) && rest@ == bytes@.skip(sysex_data_end(bytes@) as int)
                } else {
                    r matches Err(e) && e.kind == ErrorKind::InvalidData
                },
            },
    {
        let command = if 0x80 <= status_byte && status_byte < 0x90 {
            RtpMidiMessage::MidiMessage(MidiMessage::NoteOff(channel_of(channel), note_of(bytes[0]), value7_of(bytes[1])))
        } else if 0x90 <= status_byte && status_byte < 0xA0 {
            RtpMidiMessage::MidiMessage(MidiMessage::NoteOn(channel_of(channel), note_of(bytes[0]), value7_of(bytes[1])))
        } else if 0xA0 <= status_byte && status_byte < 0xB0 {
            RtpMidiMessage::MidiMessage(
                MidiMessage::KeyPressure(channel_of(channel), note_of(bytes[0]), value7_of(bytes[1])),
            )
        } else if 0xB0 <= status_byte && status_byte < 0xC0 {
            RtpMidiMessage::MidiMessage(
                MidiMessage::ControlChange(channel_of(channel), control_of(bytes[0]), value7_of(bytes[1])),
            )
        } else if 0xC0 <= status_byte && status_byte < 0xD0 {
            RtpMidiMessage::MidiMessage(MidiMessage::ProgramChange(channel_of(channel), program_of(bytes[0])))
        } else if 0xD0 <= status_byte && status_byte < 0xE0 {
            RtpMidiMessage::MidiMessage(MidiMessage::ChannelPressure(channel_of(channel), value7_of(bytes[0])))
        } else if 0xE0 <= status_byte && status_byte < 0xF0 {
            let (msb, lsb) = value14_of(bytes[0], bytes[1]);
            RtpMidiMessage::MidiMessage(MidiMessage::PitchBendChange(channel_of(channel), msb, lsb))
        } else if status_byte == 0xF0 {
            let mut end_index: usize = 0;
            while end_index < bytes.len() && bytes[end_index] != 0xF7
                invariant
                    end_index <= bytes@.len(),
                    forall|j: int| 0 <= j < end_index ==> bytes@[j] != 0xF7,
                decreases bytes@.len() - end_index,
            {
                end_index = end_index + 1;
            }
            proof {
                lemma_sysex_data_end(bytes@, end_index as int);
            }
            RtpMidiMessage::SysEx(&bytes[1..end_index])
        } else if status_byte == 0xF1 {
            RtpMidiMessage::MidiMessage(MidiMessage::QuarterFrame(quarter_frame_of(bytes[0])))
        } else if status_byte == 0xF2 {
            let (msb, lsb) = value14_of(bytes[0], bytes[1]);
            RtpMidiMessage::MidiMessage(MidiMessage::SongPositionPointer(msb, lsb))
        } else if status_byte == 0xF3 {
            RtpMidiMessage::MidiMessage(MidiMessage::SongSelect(value7_of(bytes[0])))
        } else if status_byte == 0xF6 {
            RtpMidiMessage::MidiMessage(MidiMessage::TuneRequest)
        } else if status_byte == 0xF8 {
            RtpMidiMessage::MidiMessage(MidiMessage::TimingClock)
        } else {
            return Err(Error::new(ErrorKind::InvalidData));
        };
        let remaining = &bytes[command.len() - 1..bytes.len()];
        Ok((command, remaining))
    }

    /// Reads the message at the front of `bytes`: the first byte is its status
    /// byte when its top bit is set, else the running status applies; see
    /// `from_status_byte`. Fails with `InvalidData` when there is no status.
    pub fn from_be_bytes(bytes: &[u8], running_status: Option<u8>) -> (r: Result<(RtpMidiMessage<'_>, &[u8]), Error>)
        requires
            bytes@.len() >= 1,
            status_and_rest(bytes@, running_status) matches Some((s, b)) ==> from_status_in_bounds(s, s & 0x0F, b),
        ensures
            match status_and_rest(bytes@, running_status) {
                None => r matches Err(e) && e.kind == ErrorKind::InvalidData,
                Some((s, b)) => match message_of(s, s & 0x0F, b) {
                    Some(m) => r matches Ok((RtpMidiMessage::MidiMessage(x), rest)) && x == m && rest@ == b.skip(
                        m.spec_len() - 1,
                    ),
                    None => if s == 0xF0 {
                        r matches Ok((RtpMidiMessage::SysEx(d), rest)) && d@ == b.subrange(
                            1,
                            sysex_data_end(b) as int,
                        ) && rest@ == b.skip(sysex_data_end(b) as int)
                    } else {
                        r matches Err(e) && e.kind == ErrorKind::InvalidData
                    },
                },
            },
    {
        let (status_byte, rest) = if bytes[0].status_bit() {
            (bytes[0], &bytes[1..bytes.len()])
        } else {
            match running_status {
                Some(s) => (s, bytes),
                None => {
                    return Err(Error::new(ErrorKind::InvalidData));
                },
            }
        };
        assert(rest@ == status_and_rest(bytes@, running_status)->Some_0.1);
        let channel = status_byte & 0x0F;
        Self::from_status_byte(status_byte, channel, rest)
    }
}

/// `sysex_data_end` is where the first 0xF7 is, or the end.
proof fn lemma_sysex_data_end(b: Seq<u8>, i: int)
    requires
        0 <= i <= b.len(),
        forall|j: int| 0 <= j < i ==> b[j] != 0xF7,
        i < b.len() ==> b[i] == 0xF7,
    ensures
        sysex_data_end(b) == i,
{
    super::midi_command::lemma_sysex_end(b, i);
}

/// A channel voice message written by `write` is read back by `from_be_bytes`
/// as itself, followed by what came after it, when `midi_types` accepts its
/// values; with its status byte left out under the running status as well,
/// since its first data byte is below 0x80.
pub proof fn lemma_write_then_read(m: MidiMessage, running_status: Option<u8>, rest: Seq<u8>)
    requires
        m.is_channel_voice(),
        m.accepted(),
    ensures
        ({
            let bytes = m.spec_write_bytes(running_status) + rest;
            let b = m.spec_data() + rest;
            &&& bytes.len() >= 1
            &&& status_and_rest(bytes, running_status) == Some((m.spec_status(), b))
            &&& m.spec_status() & 0x0F == match m {
                MidiMessage::NoteOff(c, _, _) | MidiMessage::NoteOn(c, _, _) | MidiMessage::KeyPressure(c, _, _)
                | MidiMessage::ControlChange(c, _, _) | MidiMessage::ProgramChange(c, _)
                | MidiMessage::ChannelPressure(c, _) | MidiMessage::PitchBendChange(c, _, _) => c,
                _ => 0u8,
            }
            &&& from_status_in_bounds(m.spec_status(), m.spec_status() & 0x0F, b)
            &&& message_of(m.spec_status(), m.spec_status() & 0x0F, b) == Some(m)
            &&& b.skip(m.spec_len() - 1) == rest
        }),
{
    let (t, c): (u8, u8) = match m {
        MidiMessage::NoteOff(c, _, _) => (0x80u8, c),
        MidiMessage::NoteOn(c, _, _) => (0x90u8, c),
        MidiMessage::KeyPressure(c, _, _) => (0xA0u8, c),
        MidiMessage::ControlChange(c, _, _) => (0xB0u8, c),
        MidiMessage::ProgramChange(c, _) => (0xC0u8, c),
        MidiMessage::ChannelPressure(c, _) => (0xD0u8, c),
        _ => (0xE0u8, m->PitchBendChange_0),
    };
    assert(m.spec_status() == t | c);
    assert((t | c) & 0x0F == c && t <= (t | c) && (t | c) < t + 16 && (t | c) >= 0x80) by (bit_vector)
        requires
            t == 0x80u8 || t == 0x90u8 || t == 0xA0u8 || t == 0xB0u8 || t == 0xC0u8 || t == 0xD0u8 || t
                == 0xE0u8,
            c <= 15,
    ;
    let bytes = m.spec_write_bytes(running_status) + rest;
    let b = m.spec_data() + rest;
    if running_status == Some(m.spec_status()) {
        assert(bytes =~= b);
    } else {
        assert(bytes =~= seq![m.spec_status()] + b);
        assert(bytes.skip(1) =~= b);
    }
    assert(b.skip(m.spec_len() - 1) =~= rest);
}

/// A system common message (MTC quarter frame 0xF1, song position pointer
/// 0xF2, song select 0xF3, tune request 0xF6, timing clock 0xF8) framed as its
/// status byte and data bytes is read back by `from_be_bytes` as itself,
/// whatever the running status and whatever follows it, when its data bytes
/// are below 0x80; its status byte is the one `status` gives.
pub proof fn lemma_system_common_reads_back(m: MidiMessage, running_status: Option<u8>, rest: Seq<u8>)
    requires
        m is QuarterFrame || m is SongPositionPointer || m is SongSelect || m is TuneRequest || m is TimingClock,
        m.wf(),
    ensures
        ({
            let (s, data) = match m {
                MidiMessage::QuarterFrame(d) => (0xF1u8, seq![d]),
                MidiMessage::SongPositionPointer(a, b) => (0xF2u8, seq![a, b]),
                MidiMessage::SongSelect(d) => (0xF3u8, seq![d]),
                MidiMessage::TuneRequest => (0xF6u8, Seq::<u8>::empty()),
                _ => (0xF8u8, Seq::<u8>::empty()),
            };
            let bytes = seq![s] + data + rest;
            let b = data + rest;
            &&& m.spec_status() == s
            &&& m.spec_len() == data.len() + 1
            &&& status_and_rest(bytes, running_status) == Some((s, b))
            &&& from_status_in_bounds(s, s & 0x0F, b)
            &&& message_of(s, s & 0x0F, b) == Some(m)
            &&& b.skip(data.len() as int) == rest
        }),
{
    let (s, data) = match m {
        MidiMessage::QuarterFrame(d) => (0xF1u8, seq![d]),
        MidiMessage::SongPositionPointer(a, b) => (0xF2u8, seq![a, b]),
        MidiMessage::SongSelect(d) => (0xF3u8, seq![d]),
        MidiMessage::TuneRequest => (0xF6u8, Seq::<u8>::empty()),
        _ => (0xF8u8, Seq::<u8>::empty()),
    };
    let bytes = seq![s] + data + rest;
    let b = data + rest;
    assert(bytes.skip(1) =~= b);
    assert(b.skip(data.len() as int) =~= rest);
    if m is QuarterFrame || m is SongSelect {
        assert(b[0] == data[0]);
    } else if m is SongPositionPointer {
        assert(b[0] == data[0] && b[1] == data[1]);
    }
}

} // verus!
