//! A MIDI command that borrows its data bytes from the packet it was read from.
use super::midi_command::{
    from_be_bytes_in_bounds, lemma_status_bits, lemma_sysex_end, spec_from_be_bytes, spec_size_from_status, sysex_end,
    MidiCommand,
};
use super::util::StatusBit;
use crate::io::{Error, ErrorKind};
use crate::stream::put_slice;
use crate::byte_facts::lemma_byte_bits;
use vstd::prelude::*;

verus! {

/// A status byte and the bytes of the command that follow it.
#[derive(Debug)]
pub struct MidiCommandZeroAlloc<'a> {
    status: u8,
    data: &'a [u8],
}

/// The status in force at the front of `bytes` and how many bytes it takes
/// there: the first byte if its top bit is set, else the running status.
pub open spec fn zero_alloc_status(bytes: Seq<u8>, running_status: Option<u8>) -> Option<(u8, nat)> {
    if bytes[0] >= 0x80 {
        Some((bytes[0], 1))
    } else {
        match running_status {
            Some(s) => Some((s, 0)),
            None => None,
        }
    }
}

/// What `from_be_bytes` reads: the status, the data bytes and the bytes used.
/// For System Exclusive the data runs from the second byte up to the first
/// 0xF7 after the first byte, and the bytes used include that 0xF7.
pub open spec fn spec_zero_alloc_parse(bytes: Seq<u8>, running_status: Option<u8>) -> Result<
    (u8, Seq<u8>, nat),
    ErrorKind,
> {
    match zero_alloc_status(bytes, running_status) {
        None => Err(ErrorKind::InvalidData),
        Some((status, offset)) => if status == 0xF0 {
            match sysex_end(bytes.skip(1)) {
                Some(p) => Ok((status, bytes.subrange(1, 1 + p as int), p + 2)),
                None => Err(ErrorKind::InvalidData),
            }
        } else {
            let n = spec_size_from_status(status);
            Ok((status, bytes.subrange(offset as int, (offset + n) as int), offset + n))
        },
    }
}

/// The inputs on which `from_be_bytes` stays within `bytes`.
pub open spec fn zero_alloc_in_bounds(bytes: Seq<u8>, running_status: Option<u8>) -> bool {
    &&& bytes.len() >= 1
    &&& match zero_alloc_status(bytes, running_status) {
        None => true,
        Some((status, offset)) => if status == 0xF0 {
            true
        } else {
            offset + spec_size_from_status(status) <= bytes.len()
        },
    }
}

impl<'a> MidiCommandZeroAlloc<'a> {
    pub closed spec fn spec_status(&self) -> u8 {
        self.status
    }

    pub closed spec fn spec_data(&self) -> Seq<u8> {
        self.data@
    }

    /// The command that `to_owned` builds from the status and data bytes.
    pub open spec fn spec_owned(&self) -> MidiCommand {
        let channel = self.spec_status() & 0x0F;
        let t = self.spec_status() & 0xF0;
        let d = self.spec_data();
        if t == 0x80 {
            MidiCommand::NoteOff { channel, key: d[0], velocity: d[1] }
        } else if t == 0x90 {
            MidiCommand::NoteOn { channel, key: d[0], velocity: d[1] }
        } else if t == 0xA0 {
            MidiCommand::PolyphonicKeyPressure { channel, key: d[0], pressure: d[1] }
        } else if t == 0xB0 {
            MidiCommand::ControlChange { channel, controller: d[0], value: d[1] }
        } else if t == 0xC0 {
            MidiCommand::ProgramChange { channel, program: d[0] }
        } else if t == 0xD0 {
            MidiCommand::ChannelPressure { channel, pressure: d[0] }
        } else {
            MidiCommand::PitchBend { channel, lsb: d[0], msb: d[1] }
        }
    }

    /// Reads a command from the front of `bytes`, under the running status when
    /// the first byte is not a status byte. Fails with `InvalidData` when there
    /// is no status, and, for System Exclusive, when no 0xF7 follows. Returns the
    /// command and the bytes used; see `spec_zero_alloc_parse`.
    pub(crate) fn from_be_bytes(bytes: &'a [u8], running_status: Option<u8>) -> (r: Result<(Self, usize), Error>)
        requires
            zero_alloc_in_bounds(bytes@, running_status),
        ensures
            match spec_zero_alloc_parse(bytes@, running_status) {
                Ok((s, d, n)) => r matches Ok((c, m)) && c.spec_status() == s && c.spec_data() == d
                    && m == n && n <= bytes@.len(),
                Err(k) => r matches Err(e) && e.kind == k,
            },
    {
        let mut offset: usize = 0;
        let status = if bytes[0].status_bit() {
            offset += 1;
            bytes[0]
        } else if let Some(status) = running_status {
            status
        } else {
            return Err(Error::new(ErrorKind::InvalidData));
        };
        if status == 0xF0 {
            let tail = &bytes[1..bytes.len()];
            let mut slice_end: usize = 0;
            while slice_end < tail.len() && tail[slice_end] != 0xF7
                invariant
                    slice_end <= tail@.len(),
                    forall|j: int| 0 <= j < slice_end ==> tail@[j] != 0xF7,
                decreases tail@.len() - slice_end,
            {
                slice_end = slice_end + 1;
            }
            assert(tail@ =~= bytes@.skip(1));
            proof {
                lemma_sysex_end(tail@, slice_end as int);
            }
            if slice_end == tail.len() {
                return Err(Error::new(ErrorKind::InvalidData));
            }
            let slice = &bytes[1..slice_end + 1];
            assert(slice@ =~= bytes@.subrange(1, 1 + slice_end));
            return Ok((Self { status, data: slice }, slice_end + 2));
        }
        let length = MidiCommandZeroAlloc::size_from_status(status);
        let data = &bytes[offset..offset + length];
        Ok((Self { status, data }, offset + length))
    }

    /// The owned command for the status and data bytes; a status whose upper
    /// four bits are 0xF gives System Exclusive with the data bytes.
    pub fn to_owned(&self) -> (c: MidiCommand)
        requires
            self.spec_status() >= 0x80,
            self.spec_status() & 0xF0 != 0xF0 ==> self.spec_data().len() >= spec_size_from_status(
                self.spec_status(),
            ),
        ensures
            self.spec_status() & 0xF0 == 0xF0 ==> c == (MidiCommand::SysEx { data: c->data }) && c->data@
                == self.spec_data(),
            self.spec_status() & 0xF0 != 0xF0 ==> c == self.spec_owned(),
    {
        let s = self.status;
        assert(s >= 0x80 ==> s & 0xF0 >= 0x80) by { lemma_byte_bits(); }
        match self.status & 0xF0 {
            0x80 => MidiCommand::NoteOff { channel: self.channel(), key: self.data[0], velocity: self.data[1] },
            0x90 => MidiCommand::NoteOn { channel: self.channel(), key: self.data[0], velocity: self.data[1] },
            0xA0 => MidiCommand::PolyphonicKeyPressure {
                channel: self.channel(),
                key: self.data[0],
                pressure: self.data[1],
            },
            0xB0 => MidiCommand::ControlChange {
                channel: self.channel(),
                controller: self.data[0],
                value: self.data[1],
            },
            0xC0 => MidiCommand::ProgramChange { channel: self.channel(), program: self.data[0] },
            0xD0 => MidiCommand::ChannelPressure { channel: self.channel(), pressure: self.data[0] },
            0xE0 => MidiCommand::PitchBend { channel: self.channel(), lsb: self.data[0], msb: self.data[1] },
            _ => {
                assert(s & 0xF0 >= 0x80 && s & 0xF0 != 0x80 && s & 0xF0 != 0x90 && s & 0xF0 != 0xA0 && s
                    & 0xF0 != 0xB0 && s & 0xF0 != 0xC0 && s & 0xF0 != 0xD0 && s & 0xF0 != 0xE0 ==> s & 0xF0
                    == 0xF0) by {
                    lemma_byte_bits();
                }
                let mut v: Vec<u8> = Vec::new();
                put_slice(&mut v, self.data);
                MidiCommand::SysEx { data: v }
            },
        }
    }

    pub fn channel(&self) -> (c: u8)
        ensures
            c == self.spec_status() & 0x0F,
    {
        self.status & 0x0F
    }

    pub fn status(&self) -> (s: u8)
        ensures
            s == self.spec_status(),
    {
        self.status
    }

    fn size_from_status(status: u8) -> (n: usize)
        ensures
            n == spec_size_from_status(status),
    {
        match status & 0xF0 {
            0x80 => 2,
            0x90 => 2,
            0xA0 => 2,
            0xB0 => 2,
            0xC0 => 1,
            0xD0 => 1,
            0xE0 => 2,
            _ => 0,
        }
    }
}

/// Where the owning parse `MidiCommand::from_be_bytes` succeeds, the zero-copy
/// parse succeeds too and reads the same status, the same bytes and the same
/// count; the zero-copy command then has the owning command's status, its
/// owned command is the owning command for channel voice messages, and it
/// holds the same data for System Exclusive. `from_be_bytes_in_bounds` is the
/// owning parse's own precondition, the inputs on which it reads within the
/// bytes; the zero-copy parse's precondition follows from it.
pub proof fn lemma_agrees_with_owning_parse(
    bytes: Seq<u8>,
    running_status: Option<u8>,
    c: MidiCommand,
    z: MidiCommandZeroAlloc,
)
    requires
        from_be_bytes_in_bounds(bytes, running_status),
        spec_from_be_bytes(bytes, running_status) matches Ok((s, p, _)) && c.is_read_as(s, p),
        match spec_zero_alloc_parse(bytes, running_status) {
            Ok((s2, d2, _)) => z.spec_status() == s2 && z.spec_data() == d2,
            Err(_) => true,
        },
    ensures
        zero_alloc_in_bounds(bytes, running_status),
        spec_zero_alloc_parse(bytes, running_status) == spec_from_be_bytes(bytes, running_status),
        z.spec_status() == c.spec_status(),
        c matches MidiCommand::SysEx { data } ==> data@ == z.spec_data(),
        !(c is SysEx) ==> z.spec_owned() == c,
{
    if bytes[0] == 0xF0 {
        let t = bytes.skip(1);
        assert(bytes.drop_first() =~= t);
        assert(zero_alloc_status(bytes, running_status) == Some((0xF0u8, 1nat)));
        if !(c is SysEx) {
            lemma_status_bits(c);
        }
    } else {
        assert(0xF0u8 & 0xF0u8 == 0xF0u8) by (bit_vector);
        assert(!(c is SysEx));
        lemma_status_bits(c);
    }
}

} // verus!
