//! MIDI channel voice messages and System Exclusive messages, read from byte
//! slices and byte streams and written to byte vectors, with running status.
use super::util::StatusBit;
use crate::io::{Error, ErrorKind};
use crate::packet::midi_packet::midi_command::{data_len_of_type, status_at};
use crate::stream::{put_slice, ByteReader, ByteSink};
use crate::byte_facts::lemma_byte_bits;
use vstd::prelude::*;

verus! {

#[derive(Debug, Clone, PartialEq, Eq)]
pub enum MidiCommand {
    NoteOff { channel: u8, key: u8, velocity: u8 },
    NoteOn { channel: u8, key: u8, velocity: u8 },
    PolyphonicKeyPressure { channel: u8, key: u8, pressure: u8 },
    ControlChange { channel: u8, controller: u8, value: u8 },
    ProgramChange { channel: u8, program: u8 },
    ChannelPressure { channel: u8, pressure: u8 },
    PitchBend { channel: u8, lsb: u8, msb: u8 },
    /// A System Exclusive message; `data` is what lies between 0xF0 and 0xF7.
    SysEx { data: Vec<u8> },
}

/// The index of the first 0xF7 (end of System Exclusive) in `s`, if any.
pub open spec fn sysex_end(s: Seq<u8>) -> Option<nat>
    decreases s.len(),
{
    if s.len() == 0 {
        None
    } else if s[0] == 0xF7 {
        Some(0)
    } else {
        match sysex_end(s.drop_first()) {
            Some(k) => Some(k + 1),
            None => None,
        }
    }
}

/// The number of data bytes after a status byte: two or one for channel voice
/// messages, none for anything else.
pub open spec fn spec_size_from_status(status: u8) -> nat {
    match data_len_of_type(status & 0xF0) {
        Some(n) => n,
        None => 0,
    }
}

/// The status byte, the bytes that follow it (the data bytes, or what lies
/// between 0xF0 and 0xF7) and the number of bytes used, for the message at the
/// front of `data`.
pub open spec fn spec_from_be_bytes(data: Seq<u8>, running_status: Option<u8>) -> Result<
    (u8, Seq<u8>, nat),
    ErrorKind,
> {
    if data[0] == 0xF0 {
        match sysex_end(data) {
            Some(e) => Ok((0xF0u8, data.subrange(1, e as int), e + 1)),
            None => Err(ErrorKind::InvalidData),
        }
    } else {
        match status_at(data, running_status) {
            None => Err(ErrorKind::InvalidData),
            Some((s, off)) => match data_len_of_type(s & 0xF0) {
                Some(n) => Ok((s, data.subrange(off as int, (off + n) as int), off + n)),
                None => Err(ErrorKind::InvalidData),
            },
        }
    }
}

/// The inputs on which `from_be_bytes` stays within `data`.
pub open spec fn from_be_bytes_in_bounds(data: Seq<u8>, running_status: Option<u8>) -> bool {
    &&& data.len() >= 1
    &&& data[0] != 0xF0 ==> match status_at(data, running_status) {
        Some((s, off)) => match data_len_of_type(s & 0xF0) {
            Some(n) => off + n <= data.len(),
            None => true,
        },
        None => true,
    }
}

/// The status byte, the bytes after it and the number of bytes read, for the
/// message at the front of a stream whose unread bytes are `rest`.
pub open spec fn spec_read(rest: Seq<u8>, running_status: Option<u8>) -> Result<
    (u8, Seq<u8>, nat),
    ErrorKind,
> {
    if rest.len() == 0 {
        Err(ErrorKind::UnexpectedEof)
    } else if rest[0] == 0xF0 {
        match sysex_end(rest.skip(1)) {
            Some(e) => Ok((0xF0u8, rest.subrange(1, (1 + e) as int), e + 2)),
            None => Err(ErrorKind::UnexpectedEof),
        }
    } else if rest[0] < 0x80 && running_status is None {
        Err(ErrorKind::InvalidData)
    } else {
        let status = if rest[0] < 0x80 {
            running_status.unwrap()
        } else {
            rest[0]
        };
        let from: nat = if rest[0] < 0x80 {
            0
        } else {
            1
        };
        let size = spec_size_from_status(status);
        if rest.len() < from + size {
            Err(ErrorKind::UnexpectedEof)
        } else if data_len_of_type(status & 0xF0) is None {
            Err(ErrorKind::InvalidData)
        } else {
            Ok((status, rest.subrange(from as int, (from + size) as int), from + size))
        }
    }
}

/// The inputs on which `read` does not index out of its small data buffer: a
/// data byte under a running status that is not a channel voice message.
pub open spec fn read_in_bounds(rest: Seq<u8>, running_status: Option<u8>) -> bool {
    rest.len() >= 1 && rest[0] < 0x80 ==> (running_status matches Some(s) ==> spec_size_from_status(s)
        >= 1)
}

impl MidiCommand {
    pub open spec fn spec_status(&self) -> u8 {
        match self {
            MidiCommand::SysEx { .. } => 0xF0,
            MidiCommand::NoteOff { channel, .. } => 0x80 | (*channel & 0x0F),
            MidiCommand::NoteOn { channel, .. } => 0x90 | (*channel & 0x0F),
            MidiCommand::PolyphonicKeyPressure { channel, .. } => 0xA0 | (*channel & 0x0F),
            MidiCommand::ControlChange { channel, .. } => 0xB0 | (*channel & 0x0F),
            MidiCommand::ProgramChange { channel, .. } => 0xC0 | (*channel & 0x0F),
            MidiCommand::ChannelPressure { channel, .. } => 0xD0 | (*channel & 0x0F),
            MidiCommand::PitchBend { channel, .. } => 0xE0 | (*channel & 0x0F),
        }
    }

    /// The data bytes, or for System Exclusive what lies between 0xF0 and 0xF7.
    pub open spec fn spec_payload(&self) -> Seq<u8> {
        match self {
            MidiCommand::SysEx { data } => data@,
            MidiCommand::NoteOff { key, velocity, .. } => seq![*key, *velocity],
            MidiCommand::NoteOn { key, velocity, .. } => seq![*key, *velocity],
            MidiCommand::PolyphonicKeyPressure { key, pressure, .. } => seq![*key, *pressure],
            MidiCommand::ControlChange { controller, value, .. } => seq![*controller, *value],
            MidiCommand::ProgramChange { program, .. } => seq![*program],
            MidiCommand::ChannelPressure { pressure, .. } => seq![*pressure],
            MidiCommand::PitchBend { lsb, msb, .. } => seq![*lsb, *msb],
        }
    }

    /// The upper four bits of the status byte: the message type.
    pub open spec fn spec_type(&self) -> u8 {
        match self {
            MidiCommand::SysEx { .. } => 0xF0,
            MidiCommand::NoteOff { .. } => 0x80,
            MidiCommand::NoteOn { .. } => 0x90,
            MidiCommand::PolyphonicKeyPressure { .. } => 0xA0,
            MidiCommand::ControlChange { .. } => 0xB0,
            MidiCommand::ProgramChange { .. } => 0xC0,
            MidiCommand::ChannelPressure { .. } => 0xD0,
            MidiCommand::PitchBend { .. } => 0xE0,
        }
    }

    /// The channel of a channel voice message; 0 for System Exclusive.
    pub open spec fn spec_channel(&self) -> u8 {
        match self {
            MidiCommand::SysEx { .. } => 0,
            MidiCommand::NoteOff { channel, .. } => *channel,
            MidiCommand::NoteOn { channel, .. } => *channel,
            MidiCommand::PolyphonicKeyPressure { channel, .. } => *channel,
            MidiCommand::ControlChange { channel, .. } => *channel,
            MidiCommand::ProgramChange { channel, .. } => *channel,
            MidiCommand::ChannelPressure { channel, .. } => *channel,
            MidiCommand::PitchBend { channel, .. } => *channel,
        }
    }

    /// A channel below 16 (System Exclusive has none).
    pub open spec fn wf(&self) -> bool {
        match self {
            MidiCommand::SysEx { .. } => true,
            MidiCommand::NoteOff { channel, .. } => *channel < 16,
            MidiCommand::NoteOn { channel, .. } => *channel < 16,
            MidiCommand::PolyphonicKeyPressure { channel, .. } => *channel < 16,
            MidiCommand::ControlChange { channel, .. } => *channel < 16,
            MidiCommand::ProgramChange { channel, .. } => *channel < 16,
            MidiCommand::ChannelPressure { channel, .. } => *channel < 16,
            MidiCommand::PitchBend { channel, .. } => *channel < 16,
        }
    }

    /// The bytes that `write` appends: for System Exclusive, whatever the
    /// running status, the single start byte 0xF0, the data and 0xF7; for other
    /// messages the status byte unless it equals the running status, then the
    /// data bytes.
    pub open spec fn spec_write_bytes(&self, running_status: Option<u8>) -> Seq<u8> {
        match self {
            MidiCommand::SysEx { data } => seq![0xF0u8] + data@ + seq![0xF7u8],
            _ => if running_status == Some(self.spec_status()) {
                self.spec_payload()
            } else {
                seq![self.spec_status()] + self.spec_payload()
            },
        }
    }

    /// What a status byte and the bytes after it stand for, as read.
    pub open spec fn is_read_as(&self, status: u8, payload: Seq<u8>) -> bool {
        &&& self.wf()
        &&& self.spec_status() == status
        &&& self.spec_payload() == payload
    }

    /// `other` has the same type, channel and bytes; for a channel voice
    /// message that is equality.
    pub open spec fn same_as(&self, other: MidiCommand) -> bool {
        &&& self.spec_type() == other.spec_type()
        &&& self.spec_channel() == other.spec_channel()
        &&& self.spec_status() == other.spec_status()
        &&& self.spec_payload() == other.spec_payload()
        &&& self.wf() == other.wf()
        &&& (self is SysEx) == (other is SysEx)
        &&& !(self is SysEx) ==> *self == other
    }

    /// A copy of the command.
    pub fn duplicate(&self) -> (c: Self)
        ensures
            c.same_as(*self),
    {
        match self {
            MidiCommand::SysEx { data } => {
                let mut v: Vec<u8> = Vec::new();
                put_slice(&mut v, data.as_slice());
                assert(v@ =~= data@);
                MidiCommand::SysEx { data: v }
            },
            MidiCommand::NoteOff { channel, key, velocity } => MidiCommand::NoteOff {
                channel: *channel,
                key: *key,
                velocity: *velocity,
            },
            MidiCommand::NoteOn { channel, key, velocity } => MidiCommand::NoteOn {
                channel: *channel,
                key: *key,
                velocity: *velocity,
            },
            MidiCommand::PolyphonicKeyPressure { channel, key, pressure } => MidiCommand::PolyphonicKeyPressure {
                channel: *channel,
                key: *key,
                pressure: *pressure,
            },
            MidiCommand::ControlChange { channel, controller, value } => MidiCommand::ControlChange {
                channel: *channel,
                controller: *controller,
                value: *value,
            },
            MidiCommand::ProgramChange { channel, program } => MidiCommand::ProgramChange {
                channel: *channel,
                program: *program,
            },
            MidiCommand::ChannelPressure { channel, pressure } => MidiCommand::ChannelPressure {
                channel: *channel,
                pressure: *pressure,
            },
            MidiCommand::PitchBend { channel, lsb, msb } => MidiCommand::PitchBend {
                channel: *channel,
                lsb: *lsb,
                msb: *msb,
            },
        }
    }

    /// The number of bytes after the status byte; for System Exclusive, the data
    /// with its two framing bytes.
    pub fn size(&self) -> (n: usize)
        requires
            self.spec_payload().len() + 2 <= usize::MAX,
        ensures
            n == match self {
                MidiCommand::SysEx { data } => data@.len() + 2,
                _ => self.spec_payload().len(),
            },
    {
        match self {
            MidiCommand::SysEx { data } => data.len() + 2,
            MidiCommand::NoteOff { .. } => 2,
            MidiCommand::NoteOn { .. } => 2,
            MidiCommand::PolyphonicKeyPressure { .. } => 2,
            MidiCommand::ControlChange { .. } => 2,
            MidiCommand::ProgramChange { .. } => 1,
            MidiCommand::ChannelPressure { .. } => 1,
            MidiCommand::PitchBend { .. } => 2,
        }
    }

    pub fn status(&self) -> (s: u8)
        ensures
            s == self.spec_status(),
    {
        match self {
            MidiCommand::SysEx { .. } => 0xF0,
            MidiCommand::NoteOff { channel, .. } => 0x80 | (*channel & 0x0F),
            MidiCommand::NoteOn { channel, .. } => 0x90 | (*channel & 0x0F),
            MidiCommand::PolyphonicKeyPressure { channel, .. } => 0xA0 | (*channel & 0x0F),
            MidiCommand::ControlChange { channel, .. } => 0xB0 | (*channel & 0x0F),
            MidiCommand::ProgramChange { channel, .. } => 0xC0 | (*channel & 0x0F),
            MidiCommand::ChannelPressure { channel, .. } => 0xD0 | (*channel & 0x0F),
            MidiCommand::PitchBend { channel, .. } => 0xE0 | (*channel & 0x0F),
        }
    }

    fn size_from_status(status: u8) -> (n: usize)
        ensures
            n == spec_size_from_status(status),
    {
        match status & 0xF0 {
            0x80 => 2,
            0x90 => 2,
            0xA0 => 2,
            0xB0 => 2,
            0xC0 => 1,
            0xD0 => 1,
            0xE0 => 2,
            _ => 0,
        }
    }

    /// The command for `status` and its data bytes `d`; `status & 0xF0` must be
    /// a channel voice message type.
    fn from_status_and_data(status: u8, d0: u8, d1: u8) -> (c: Self)
        requires
            data_len_of_type(status & 0xF0) is Some,
        ensures
            c.wf(),
            c.spec_status() == status,
            c.spec_payload() == seq![d0, d1].take(spec_size_from_status(status) as int),
    {
        let channel = status & 0x0F;
        let t = status & 0xF0;
        assert(channel < 16 && (t | (channel & 0x0F)) == status) by (bit_vector)
            requires
                channel == status & 0x0F,
                t == status & 0xF0,
        ;
        let c = if t == 0x80 {
            MidiCommand::NoteOff { channel, key: d0, velocity: d1 }
        } else if t == 0x90 {
            MidiCommand::NoteOn { channel, key: d0, velocity: d1 }
        } else if t == 0xA0 {
            MidiCommand::PolyphonicKeyPressure { channel, key: d0, pressure: d1 }
        } else if t == 0xB0 {
            MidiCommand::ControlChange { channel, controller: d0, value: d1 }
        } else if t == 0xC0 {
            MidiCommand::ProgramChange { channel, program: d0 }
        } else if t == 0xD0 {
            MidiCommand::ChannelPressure { channel, pressure: d0 }
        } else {
            MidiCommand::PitchBend { channel, lsb: d0, msb: d1 }
        };
        assert(c.spec_payload() =~= seq![d0, d1].take(spec_size_from_status(status) as int));
        c
    }

    /// Reads the message at the front of `data`: a System Exclusive message up
    /// to the first 0xF7, or a channel voice message with its status byte or
    /// under the running status. Fails with `InvalidData` when 0xF7 is missing,
    /// when there is no status, and when the status is not a channel voice
    /// message. Returns the message and the bytes read.
    pub fn from_be_bytes(data: &[u8], running_status: Option<u8>) -> (r: Result<(Self, usize), Error>)
        requires
            from_be_bytes_in_bounds(data@, running_status),
        ensures
            match spec_from_be_bytes(data@, running_status) {
                Ok((s, p, n)) => r matches Ok((c, m)) && c.is_read_as(s, p) && m == n && n <= data@.len(),
                Err(k) => r matches Err(e) && e.kind == k,
            },
    {
        let first_byte = data[0];
        if first_byte == 0xF0 {
            let mut end: usize = 0;
            while end < data.len() && data[end] != 0xF7
                invariant
                    end <= data@.len(),
                    forall|j: int| 0 <= j < end ==> data@[j] != 0xF7,
                decreases data@.len() - end,
            {
                end = end + 1;
            }
            proof {
                lemma_sysex_end(data@, end as int);
            }
            if end == data.len() {
                return Err(Error::new(ErrorKind::InvalidData));
            }
            let sysex_data = &data[1..end];
            let mut v: Vec<u8> = Vec::new();
            put_slice(&mut v, sysex_data);
            return Ok((MidiCommand::SysEx { data: v }, end + 1));
        }
        let (status, data_bytes_read) = if first_byte.status_bit() {
            (first_byte, 1usize)
        } else {
            match running_status {
                Some(rs) => (rs, 0usize),
                None => {
                    return Err(Error::new(ErrorKind::InvalidData));
                },
            }
        };
        let size = MidiCommand::size_from_status(status);
        let t = status & 0xF0;
        if !(t == 0x80 || t == 0x90 || t == 0xA0 || t == 0xB0 || t == 0xC0 || t == 0xD0 || t
            == 0xE0) {
            return Err(Error::new(ErrorKind::InvalidData));
        }
        let d0 = data[data_bytes_read];
        let d1 = if size == 2 {
            data[data_bytes_read + 1]
        } else {
            0
        };
        let command = MidiCommand::from_status_and_data(status, d0, d1);
        assert(command.spec_payload() =~= data@.subrange(
            data_bytes_read as int,
            (data_bytes_read + size) as int,
        ));
        let bytes_read = data_bytes_read + size;
        Ok((command, bytes_read))
    }

    /// Reads one message from `reader`: a System Exclusive message through its
    /// 0xF7, or a channel voice message with its status byte or under the
    /// running status. Fails with `UnexpectedEof` when the bytes run out, and
    /// with `InvalidData` when there is no status or the status is not a channel
    /// voice message.
    pub fn read(reader: &mut ByteReader, running_status: Option<u8>) -> (r: Result<Self, Error>)
        requires
            old(reader).wf(),
            read_in_bounds(old(reader).rest(), running_status),
        ensures
            final(reader).wf(),
            final(reader).spec_data() == old(reader).spec_data(),
            match spec_read(old(reader).rest(), running_status) {
                Ok((s, p, n)) => r matches Ok(c) && c.is_read_as(s, p) && final(reader).rest()
                    == old(reader).rest().skip(n as int),
                Err(k) => r matches Err(e) && e.kind == k,
            },
    {
        let ghost rest0 = reader.rest();
        let first_byte = match reader.read_u8() {
            Ok(b) => b,
            Err(e) => return Err(e),
        };
        if first_byte == 0xF0 {
            let mut data: Vec<u8> = Vec::new();
            loop
                invariant
                    reader.wf(),
                    reader.spec_data() == old(reader).spec_data(),
                    rest0 == old(reader).rest(),
                    rest0.len() >= 1 + data@.len(),
                    rest0[0] == 0xF0,
                    reader.rest() == rest0.skip((1 + data@.len()) as int),
                    data@ == rest0.subrange(1, (1 + data@.len()) as int),
                    forall|j: int| 0 <= j < data@.len() ==> data@[j] != 0xF7,
                decreases reader.rest().len(),
            {
                let ghost before = reader.rest();
                let byte = match reader.read_u8() {
                    Ok(b) => b,
                    Err(e) => {
                        proof {
                            assert(rest0.skip(1) =~= data@);
                            lemma_sysex_end(rest0.skip(1), data@.len() as int);
                        }
                        return Err(e);
                    },
                };
                if byte == 0xF7 {
                    proof {
                        assert(rest0.skip(1)[data@.len() as int] == byte);
                        assert forall|j: int| 0 <= j < data@.len() implies rest0.skip(1)[j] != 0xF7 by {
                            assert(rest0.skip(1)[j] == data@[j]);
                        }
                        lemma_sysex_end(rest0.skip(1), data@.len() as int);
                        assert(data@ =~= rest0.subrange(1, (1 + data@.len()) as int));
                        assert(reader.rest() =~= rest0.skip((data@.len() + 2) as int));
                    }
                    return Ok(MidiCommand::SysEx { data });
                }
                data.push(byte);
                proof {
                    assert(reader.rest() =~= rest0.skip((1 + data@.len()) as int));
                    assert(data@ =~= rest0.subrange(1, (1 + data@.len()) as int));
                }
            }
        }
        let mut data: [u8; 2] = [0; 2];
        let (status, data_bytes_read) = if first_byte & 0x80 == 0 {
            match running_status {
                Some(rs) => {
                    data[0] = first_byte;
                    (rs, 1usize)
                },
                None => {
                    assert(first_byte & 0x80 == 0 ==> first_byte < 0x80) by { lemma_byte_bits(); }
                    return Err(Error::new(ErrorKind::InvalidData));
                },
            }
        } else {
            (first_byte, 0usize)
        };
        assert((first_byte & 0x80 == 0) == (first_byte < 0x80)) by { lemma_byte_bits(); }
        let size = MidiCommand::size_from_status(status);
        let mut i = data_bytes_read;
        while i < size
            invariant
                reader.wf(),
                reader.spec_data() == old(reader).spec_data(),
                rest0 == old(reader).rest(),
                rest0.len() >= 1,
                rest0[0] == first_byte,
                first_byte != 0xF0,
                first_byte < 0x80 ==> running_status == Some(status) && data_bytes_read == 1,
                first_byte >= 0x80 ==> status == first_byte && data_bytes_read == 0,
                size == spec_size_from_status(status),
                data_bytes_read <= i <= size <= 2,
                reader.rest() == rest0.skip(1 + i - data_bytes_read),
                rest0.len() >= 1 + i - data_bytes_read,
                data_bytes_read == 1 ==> data@[0] == rest0[0],
                forall|j: int| data_bytes_read <= j < i ==> data@[j] == rest0[1 + j - data_bytes_read],
            decreases size - i,
        {
            let b = match reader.read_u8() {
                Ok(b) => b,
                Err(e) => return Err(e),
            };
            data[i] = b;
            i = i + 1;
            proof {
                assert(reader.rest() =~= rest0.skip(1 + i - data_bytes_read));
            }
        }
        let t = status & 0xF0;
        if !(t == 0x80 || t == 0x90 || t == 0xA0 || t == 0xB0 || t == 0xC0 || t == 0xD0 || t
            == 0xE0) {
            return Err(Error::new(ErrorKind::InvalidData));
        }
        let command = MidiCommand::from_status_and_data(status, data[0], data[1]);
        proof {
            let from: nat = if first_byte < 0x80 {
                0
            } else {
                1
            };
            assert(command.spec_payload() =~= rest0.subrange(from as int, (from + size) as int));
        }
        Ok(command)
    }

    /// Appends the message to `writer`: for System Exclusive 0xF0, the data and
    /// 0xF7; for other messages the status byte unless it equals the running
    /// status, then the data bytes. Returns the number of bytes appended.
    pub fn write<W: ByteSink>(&self, writer: &mut W, running_status: Option<u8>) -> (r: Result<usize, Error>)
        requires
            old(writer).sink_room() >= self.spec_payload().len() + 3,
            self.spec_payload().len() + 3 <= usize::MAX,
        ensures
            r matches Ok(n) && n == self.spec_write_bytes(running_status).len() && final(writer).sink_contents()
                == old(writer).sink_contents() + self.spec_write_bytes(running_status),
            final(writer).sink_room() == old(writer).sink_room() - self.spec_write_bytes(running_status).len(),
    {
        let mut bytes_written: usize = 0;
        let write_status = match self {
            MidiCommand::SysEx { .. } => false,
            _ => match running_status {
                None => true,
                Some(rs) => self.status() != rs,
            },
        };
        if write_status {
            writer.put_byte(self.status());
            bytes_written += 1;
        }
        match self {
            MidiCommand::SysEx { data } => {
                writer.put_byte(0xF0);
                bytes_written += 1;
                writer.put_bytes(data.as_slice());
                bytes_written += data.len();
                writer.put_byte(0xF7);
                bytes_written += 1;
            },
            MidiCommand::NoteOff { key, velocity, .. } | MidiCommand::NoteOn {
                key,
                velocity,
                ..
            } => {
                writer.put_byte(*key);
                writer.put_byte(*velocity);
                bytes_written += 2;
            },
            MidiCommand::PolyphonicKeyPressure { key, pressure, .. } => {
                writer.put_byte(*key);
                writer.put_byte(*pressure);
                bytes_written += 2;
            },
            MidiCommand::ControlChange { controller, value, .. } => {
                writer.put_byte(*controller);
                writer.put_byte(*value);
                bytes_written += 2;
            },
            MidiCommand::ProgramChange { program, .. } => {
                writer.put_byte(*program);
                bytes_written += 1;
            },
            MidiCommand::ChannelPressure { pressure, .. } => {
                writer.put_byte(*pressure);
                bytes_written += 1;
            },
            MidiCommand::PitchBend { lsb, msb, .. } => {
                writer.put_byte(*lsb);
                writer.put_byte(*msb);
                bytes_written += 2;
            },
        }
        assert(writer.sink_contents() =~= old(writer).sink_contents() + self.spec_write_bytes(running_status));
        Ok(bytes_written)
    }
}

/// `sysex_end` finds the first 0xF7.
pub proof fn lemma_sysex_end(s: Seq<u8>, i: int)
    requires
        0 <= i <= s.len(),
        forall|j: int| 0 <= j < i ==> s[j] != 0xF7,
    ensures
        i < s.len() && s[i] == 0xF7 ==> sysex_end(s) == Some(i as nat),
        i == s.len() ==> sysex_end(s) is None,
    decreases i,
{
    if i > 0 {
        let t = s.drop_first();
        assert forall|j: int| 0 <= j < i - 1 implies t[j] != 0xF7 by {
            assert(t[j] == s[j + 1]);
        }
        lemma_sysex_end(t, i - 1);
        if i < s.len() {
            assert(t[i - 1] == s[i]);
        }
    }
}

/// The status byte of a channel voice message keeps its type in the upper four
/// bits and its channel in the lower four, and tells how many data bytes follow.
pub proof fn lemma_status_bits(cmd: MidiCommand)
    requires
        cmd.wf(),
        !(cmd is SysEx),
    ensures
        cmd.spec_status() >= 0x80,
        cmd.spec_status() != 0xF0,
        cmd.spec_status() & 0xF0 == cmd.spec_type(),
        cmd.spec_status() & 0x0F == cmd.spec_channel(),
        data_len_of_type(cmd.spec_type()) == Some(cmd.spec_payload().len()),
        spec_size_from_status(cmd.spec_status()) == cmd.spec_payload().len(),
{
    let t = cmd.spec_type();
    let c = cmd.spec_channel();
    assert(t & 0x0F == 0 && t >= 0x80 && t <= 0xE0 && c < 16 ==> (t | (c & 0x0F)) >= 0x80 && (t
        | (c & 0x0F)) != 0xF0 && ((t | (c & 0x0F)) & 0xF0) == t && ((t | (c & 0x0F)) & 0x0F) == c)
        by (bit_vector);
    assert(0x80u8 & 0x0F == 0 && 0x90u8 & 0x0F == 0 && 0xA0u8 & 0x0F == 0 && 0xB0u8 & 0x0F == 0
        && 0xC0u8 & 0x0F == 0 && 0xD0u8 & 0x0F == 0 && 0xE0u8 & 0x0F == 0) by {
        lemma_byte_bits();
    }
}

/// A status byte and the bytes after it stand for at most one channel voice
/// message.
pub proof fn lemma_read_as_unique(a: MidiCommand, b: MidiCommand, status: u8, payload: Seq<u8>)
    requires
        a.is_read_as(status, payload),
        b.is_read_as(status, payload),
        !(a is SysEx),
    ensures
        a == b,
{
    lemma_status_bits(a);
    if b is SysEx {
        assert(false);
    } else {
        lemma_status_bits(b);
        assert(a.spec_payload()[0] == b.spec_payload()[0]);
        assert(a.spec_payload().len() == 2 ==> a.spec_payload()[1] == b.spec_payload()[1]);
    }
}

/// A channel voice message with its channel below 16 reads back as itself,
/// whatever follows it, from a slice and from a stream, when it was written
/// under the same running status and, if the status byte was left out, its
/// first data byte has its top bit clear.
pub proof fn lemma_write_then_read(cmd: MidiCommand, running_status: Option<u8>, rest: Seq<u8>)
    requires
        cmd.wf(),
        !(cmd is SysEx),
        running_status == Some(cmd.spec_status()) ==> cmd.spec_payload()[0] < 0x80,
    ensures
        ({
            let bytes = cmd.spec_write_bytes(running_status) + rest;
            let n = cmd.spec_write_bytes(running_status).len();
            &&& from_be_bytes_in_bounds(bytes, running_status)
            &&& spec_from_be_bytes(bytes, running_status) == Ok::<(u8, Seq<u8>, nat), ErrorKind>((cmd.spec_status(), cmd.spec_payload(), n))
            &&& read_in_bounds(bytes, running_status)
            &&& spec_read(bytes, running_status) == Ok::<(u8, Seq<u8>, nat), ErrorKind>((cmd.spec_status(), cmd.spec_payload(), n))
            &&& forall|c: MidiCommand| #[trigger] c.is_read_as(cmd.spec_status(), cmd.spec_payload()) ==> c == cmd
        }),
{
    lemma_status_bits(cmd);
    let enc = cmd.spec_write_bytes(running_status);
    let bytes = enc + rest;
    let off: nat = if running_status == Some(cmd.spec_status()) {
        0
    } else {
        1
    };
    let n = cmd.spec_payload().len();
    assert(enc =~= if off == 0 { cmd.spec_payload() } else { Seq::<u8>::empty().push(cmd.spec_status()) + cmd.spec_payload() });
    assert(bytes[0] == if off == 0 { cmd.spec_payload()[0] } else { cmd.spec_status() });
    assert(status_at(bytes, running_status) == Some((cmd.spec_status(), off)));
    assert(bytes.subrange(off as int, (off + n) as int) =~= cmd.spec_payload());
    assert forall|c: MidiCommand| #[trigger] c.is_read_as(cmd.spec_status(), cmd.spec_payload()) implies c == cmd by {
        lemma_read_as_unique(cmd, c, cmd.spec_status(), cmd.spec_payload());
    }
}

/// A System Exclusive message whose data holds no 0xF7 reads back as itself,
/// from a slice and from a stream, whatever the running status it was written
/// under and whatever follows it.
pub proof fn lemma_sysex_write_then_read(data: Vec<u8>, running_status: Option<u8>, rest: Seq<u8>)
    requires
        forall|j: int| 0 <= j < data@.len() ==> data@[j] != 0xF7,
    ensures
        ({
            let cmd = MidiCommand::SysEx { data };
            let bytes = cmd.spec_write_bytes(running_status) + rest;
            let n = cmd.spec_write_bytes(running_status).len();
            &&& n == data@.len() + 2
            &&& from_be_bytes_in_bounds(bytes, None)
            &&& spec_from_be_bytes(bytes, None) == Ok::<(u8, Seq<u8>, nat), ErrorKind>((0xF0u8, data@, n))
            &&& read_in_bounds(bytes, None)
            &&& spec_read(bytes, None) == Ok::<(u8, Seq<u8>, nat), ErrorKind>((0xF0u8, data@, n))
        }),
{
    let cmd = MidiCommand::SysEx { data };
    let enc = cmd.spec_write_bytes(running_status);
    let bytes = enc + rest;
    let k: int = data@.len() as int;
    assert(enc =~= seq![0xF0u8] + data@ + seq![0xF7u8]);
    assert forall|j: int| 0 <= j < k + 1 implies bytes[j] != 0xF7 by {
        if j > 0 {
            assert(bytes[j] == data@[j - 1]);
        }
    }
    assert(bytes[k + 1] == 0xF7);
    lemma_sysex_end(bytes, k + 1);
    assert forall|j: int| 0 <= j < k implies bytes.skip(1)[j] != 0xF7 by {
        assert(bytes.skip(1)[j] == data@[j]);
    }
    assert(bytes.skip(1)[k] == 0xF7);
    lemma_sysex_end(bytes.skip(1), k);
    assert(bytes.subrange(1, k + 1) =~= data@);
}

} // verus!
