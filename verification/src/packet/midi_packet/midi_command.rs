//! MIDI channel voice messages and their byte form with running status.
use crate::io::{Error, ErrorKind};
use crate::byte_facts::lemma_byte_bits;
use vstd::prelude::*;

verus! {

/// A MIDI channel voice message.
#[derive(Debug, Clone, Copy, PartialEq, Eq, Structural)]
pub enum MidiCommand {
    NoteOff { channel: u8, key: u8, velocity: u8 },
    NoteOn { channel: u8, key: u8, velocity: u8 },
    PolyphonicKeyPressure { channel: u8, key: u8, pressure: u8 },
    ControlChange { channel: u8, controller: u8, value: u8 },
    ProgramChange { channel: u8, program: u8 },
    ChannelPressure { channel: u8, pressure: u8 },
    PitchBend { channel: u8, lsb: u8, msb: u8 },
}

/// The number of data bytes that follow a status byte of type `t` (its upper
/// four bits), if `t` is a channel voice message type.
pub open spec fn data_len_of_type(t: u8) -> Option<nat> {
    if t == 0x80 || t == 0x90 || t == 0xA0 || t == 0xB0 || t == 0xE0 {
        Some(2)
    } else if t == 0xC0 || t == 0xD0 {
        Some(1)
    } else {
        None
    }
}

/// The status byte in force at the front of `bytes`, and how many bytes it
/// takes there: the first byte if its top bit is set, else the running status.
pub open spec fn status_at(bytes: Seq<u8>, running_status: Option<u8>) -> Option<(u8, nat)> {
    if bytes[0] >= 0x80 {
        Some((bytes[0], 1))
    } else {
        match running_status {
            Some(s) => Some((s, 0)),
            None => None,
        }
    }
}

/// The command that `status` and the data bytes `d` stand for.
pub open spec fn command_of(status: u8, d: Seq<u8>) -> MidiCommand {
    let channel = status & 0x0F;
    let t = status & 0xF0;
    if t == 0x80 {
        MidiCommand::NoteOff { channel, key: d[0], velocity: d[1] }
    } else if t == 0x90 {
        MidiCommand::NoteOn { channel, key: d[0], velocity: d[1] }
    } else if t == 0xA0 {
        MidiCommand::PolyphonicKeyPressure { channel, key: d[0], pressure: d[1] }
    } else if t == 0xB0 {
        MidiCommand::ControlChange { channel, controller: d[0], value: d[1] }
    } else if t == 0xC0 {
        MidiCommand::ProgramChange { channel, program: d[0] }
    } else if t == 0xD0 {
        MidiCommand::ChannelPressure { channel, pressure: d[0] }
    } else {
        MidiCommand::PitchBend { channel, lsb: d[0], msb: d[1] }
    }
}

/// The inputs on which reading a command does not run past the end of `bytes`:
/// there is a first byte, and a known message type has all its data bytes.
pub open spec fn parse_in_bounds(bytes: Seq<u8>, running_status: Option<u8>) -> bool {
    &&& bytes.len() >= 1
    &&& match status_at(bytes, running_status) {
        Some((s, off)) => match data_len_of_type(s & 0xF0) {
            Some(n) => off + n <= bytes.len(),
            None => true,
        },
        None => true,
    }
}

/// The command at the front of `bytes` and the number of bytes it takes, or
/// `None` when there is no status byte in force or its type is not a channel
/// voice message.
pub open spec fn spec_parse(bytes: Seq<u8>, running_status: Option<u8>) -> Option<(MidiCommand, nat)> {
    match status_at(bytes, running_status) {
        Some((s, off)) => match data_len_of_type(s & 0xF0) {
            Some(n) => Some((command_of(s, bytes.subrange(off as int, (off + n) as int)), off + n)),
            None => None,
        },
        None => None,
    }
}

impl MidiCommand {
    pub open spec fn spec_channel(self) -> u8 {
        match self {
            MidiCommand::NoteOff { channel, .. } => channel,
            MidiCommand::NoteOn { channel, .. } => channel,
            MidiCommand::PolyphonicKeyPressure { channel, .. } => channel,
            MidiCommand::ControlChange { channel, .. } => channel,
            MidiCommand::ProgramChange { channel, .. } => channel,
            MidiCommand::ChannelPressure { channel, .. } => channel,
            MidiCommand::PitchBend { channel, .. } => channel,
        }
    }

    /// The upper four bits of the status byte.
    pub open spec fn spec_type(self) -> u8 {
        match self {
            MidiCommand::NoteOff { .. } => 0x80,
            MidiCommand::NoteOn { .. } => 0x90,
            MidiCommand::PolyphonicKeyPressure { .. } => 0xA0,
            MidiCommand::ControlChange { .. } => 0xB0,
            MidiCommand::ProgramChange { .. } => 0xC0,
            MidiCommand::ChannelPressure { .. } => 0xD0,
            MidiCommand::PitchBend { .. } => 0xE0,
        }
    }

    /// The status byte: the type, and the low four bits of the channel.
    pub open spec fn spec_status(self) -> u8 {
        self.spec_type() | (self.spec_channel() & 0x0F)
    }

    /// The data bytes that follow the status byte.
    pub open spec fn spec_data(self) -> Seq<u8> {
        match self {
            MidiCommand::NoteOff { key, velocity, .. } => seq![key, velocity],
            MidiCommand::NoteOn { key, velocity, .. } => seq![key, velocity],
            MidiCommand::PolyphonicKeyPressure { key, pressure, .. } => seq![key, pressure],
            MidiCommand::ControlChange { controller, value, .. } => seq![controller, value],
            MidiCommand::ProgramChange { program, .. } => seq![program],
            MidiCommand::ChannelPressure { pressure, .. } => seq![pressure],
            MidiCommand::PitchBend { lsb, msb, .. } => seq![lsb, msb],
        }
    }

    /// The bytes written for this command: the status byte, unless it equals the
    /// running status, then the data bytes.
    pub open spec fn spec_encoding(self, running_status: Option<u8>) -> Seq<u8> {
        if running_status == Some(self.spec_status()) {
            self.spec_data()
        } else {
            seq![self.spec_status()] + self.spec_data()
        }
    }

    /// The number of data bytes.
    pub fn size(&self) -> (n: usize)
        ensures
            n == self.spec_data().len(),
    {
        match self {
            MidiCommand::NoteOff { .. } => 2,
            MidiCommand::NoteOn { .. } => 2,
            MidiCommand::PolyphonicKeyPressure { .. } => 2,
            MidiCommand::ControlChange { .. } => 2,
            MidiCommand::ProgramChange { .. } => 1,
            MidiCommand::ChannelPressure { .. } => 1,
            MidiCommand::PitchBend { .. } => 2,
        }
    }

    pub fn channel(&self) -> (c: u8)
        ensures
            c == self.spec_channel(),
    {
        match self {
            MidiCommand::NoteOff { channel, .. }
            | MidiCommand::NoteOn { channel, .. }
            | MidiCommand::PolyphonicKeyPressure { channel, .. }
            | MidiCommand::ControlChange { channel, .. }
            | MidiCommand::ProgramChange { channel, .. }
            | MidiCommand::ChannelPressure { channel, .. }
            | MidiCommand::PitchBend { channel, .. } => *channel,
        }
    }

    pub fn status(&self) -> (s: u8)
        ensures
            s == self.spec_status(),
    {
        match self {
            MidiCommand::NoteOff { channel, .. } => 0x80 | (*channel & 0x0F),
            MidiCommand::NoteOn { channel, .. } => 0x90 | (*channel & 0x0F),
            MidiCommand::PolyphonicKeyPressure { channel, .. } => 0xA0 | (*channel & 0x0F),
            MidiCommand::ControlChange { channel, .. } => 0xB0 | (*channel & 0x0F),
            MidiCommand::ProgramChange { channel, .. } => 0xC0 | (*channel & 0x0F),
            MidiCommand::ChannelPressure { channel, .. } => 0xD0 | (*channel & 0x0F),
            MidiCommand::PitchBend { channel, .. } => 0xE0 | (*channel & 0x0F),
        }
    }

    /// Reads a command at the front of `bytes`. A first byte without its top bit
    /// is a data byte under the running status. Fails with `InvalidData` when
    /// there is neither a status byte nor a running status, or when the status
    /// is not a channel voice message. Returns the command and the bytes read.
    pub fn from_be_bytes(bytes: &[u8], running_status: Option<u8>) -> (r: Result<(Self, usize), Error>)
        requires
            parse_in_bounds(bytes@, running_status),
        ensures
            match r {
                Ok((c, n)) => spec_parse(bytes@, running_status) == Some((c, n as nat)),
                Err(e) => spec_parse(bytes@, running_status) is None && e.kind
                    == ErrorKind::InvalidData,
            },
    {
        let mut bytes_read: usize = 0;
        let b0 = bytes[bytes_read];
        assert(b0 & 0x80 == 0 <==> b0 < 0x80) by { lemma_byte_bits(); }
        let status = if b0 & 0x80 == 0 {
            match running_status {
                Some(status) => status,
                None => {
                    return Err(Error::new(ErrorKind::InvalidData));
                },
            }
        } else {
            bytes_read += 1;
            bytes[bytes_read - 1]
        };
        let channel = status & 0x0F;
        let command_type = status & 0xF0;
        let ghost d = bytes@.subrange(bytes_read as int, bytes@.len() as int);
        let (cmd, data_len) = match command_type {
            0x80 => {
                let key = bytes[bytes_read];
                let velocity = bytes[bytes_read + 1];
                (MidiCommand::NoteOff { channel, key, velocity }, 2)
            },
            0x90 => {
                let key = bytes[bytes_read];
                let velocity = bytes[bytes_read + 1];
                (MidiCommand::NoteOn { channel, key, velocity }, 2)
            },
            0xA0 => {
                let key = bytes[bytes_read];
                let pressure = bytes[bytes_read + 1];
                (MidiCommand::PolyphonicKeyPressure { channel, key, pressure }, 2)
            },
            0xB0 => {
                let controller = bytes[bytes_read];
                let value = bytes[bytes_read + 1];
                (MidiCommand::ControlChange { channel, controller, value }, 2)
            },
            0xC0 => {
                let program = bytes[bytes_read];
                (MidiCommand::ProgramChange { channel, program }, 1)
            },
            0xD0 => {
                let pressure = bytes[bytes_read];
                (MidiCommand::ChannelPressure { channel, pressure }, 1)
            },
            0xE0 => {
                let lsb = bytes[bytes_read];
                let msb = bytes[bytes_read + 1];
                (MidiCommand::PitchBend { channel, lsb, msb }, 2)
            },
            _ => {
                return Err(Error::new(ErrorKind::InvalidData));
            },
        };
        assert(cmd == command_of(status, bytes@.subrange(bytes_read as int, bytes_read + data_len)));
        bytes_read += data_len;
        Ok((cmd, bytes_read))
    }

    /// Writes the command at the front of `bytes`: the status byte unless it
    /// equals `running_status`, then the data bytes. Returns the bytes written.
    pub fn write_to_bytes(&self, bytes: &mut [u8], running_status: Option<u8>) -> (r: Result<
        usize,
        Error,
    >)
        requires
            old(bytes)@.len() >= self.spec_encoding(running_status).len(),
        ensures
            match r {
                Ok(n) => {
                    &&& n == self.spec_encoding(running_status).len()
                    &&& final(bytes)@ == self.spec_encoding(running_status) + old(bytes)@.skip(
                        n as int,
                    )
                },
                Err(_) => false,
            },
    {
        let mut bytes_written: usize = 0;
        let status = self.status();
        let write_status = match running_status {
            Some(rs) => status != rs,
            None => true,
        };
        if write_status {
            bytes[bytes_written] = status;
            bytes_written += 1;
        }
        match self {
            MidiCommand::NoteOff { key, velocity, .. } | MidiCommand::NoteOn {
                key,
                velocity,
                ..
            } => {
                bytes[bytes_written] = *key;
                bytes[bytes_written + 1] = *velocity;
                bytes_written += 2;
            },
            MidiCommand::PolyphonicKeyPressure { key, pressure, .. } => {
                bytes[bytes_written] = *key;
                bytes[bytes_written + 1] = *pressure;
                bytes_written += 2;
            },
            MidiCommand::ControlChange { controller, value, .. } => {
                bytes[bytes_written] = *controller;
                bytes[bytes_written + 1] = *value;
                bytes_written += 2;
            },
            MidiCommand::ProgramChange { program, .. } => {
                bytes[bytes_written] = *program;
                bytes_written += 1;
            },
            MidiCommand::ChannelPressure { pressure, .. } => {
                bytes[bytes_written] = *pressure;
                bytes_written += 1;
            },
            MidiCommand::PitchBend { lsb, msb, .. } => {
                bytes[bytes_written] = *lsb;
                bytes[bytes_written + 1] = *msb;
                bytes_written += 2;
            },
        }
        assert(bytes@ =~= self.spec_encoding(running_status) + old(bytes)@.skip(
            bytes_written as int,
        ));
        Ok(bytes_written)
    }
}

/// The status byte of a command keeps its type in the upper four bits and its
/// channel, when that is below 16, in the lower four.
pub proof fn lemma_status_bits(cmd: MidiCommand)
    ensures
        cmd.spec_status() >= 0x80,
        cmd.spec_status() & 0xF0 == cmd.spec_type(),
        cmd.spec_status() & 0x0F == cmd.spec_channel() & 0x0F,
        cmd.spec_channel() < 16 ==> cmd.spec_channel() & 0x0F == cmd.spec_channel(),
        data_len_of_type(cmd.spec_type()) == Some(cmd.spec_data().len()),
{
    let t = cmd.spec_type();
    let c = cmd.spec_channel();
    assert((t & 0x0F == 0 && t >= 0x80 ==> (t | (c & 0x0F)) >= 0x80 && ((t | (c & 0x0F)) & 0xF0)
        == t && ((t | (c & 0x0F)) & 0x0F) == c & 0x0F) && (c < 16 ==> c & 0x0F == c) && 0x80u8
        & 0x0F == 0 && 0x90u8 & 0x0F == 0 && 0xA0u8 & 0x0F == 0 && 0xB0u8 & 0x0F == 0 && 0xC0u8
        & 0x0F == 0 && 0xD0u8 & 0x0F == 0 && 0xE0u8 & 0x0F == 0) by (bit_vector);
    assert(t & 0x0F == 0);
}

/// Reading back what was written gives the same command and the same length,
/// whatever follows, when the channel is below 16 and, if the status byte is
/// left out under running status, the first data byte has its top bit clear.
pub proof fn lemma_write_then_read(cmd: MidiCommand, running_status: Option<u8>, rest: Seq<u8>)
    requires
        cmd.spec_channel() < 16,
        running_status == Some(cmd.spec_status()) ==> cmd.spec_data()[0] < 0x80,
    ensures
        parse_in_bounds(cmd.spec_encoding(running_status) + rest, running_status),
        spec_parse(cmd.spec_encoding(running_status) + rest, running_status) == Some(
            (cmd, cmd.spec_encoding(running_status).len()),
        ),
{
    lemma_status_bits(cmd);
    let enc = cmd.spec_encoding(running_status);
    let s = enc + rest;
    let off: nat = if running_status == Some(cmd.spec_status()) {
        0
    } else {
        1
    };
    assert(status_at(s, running_status) == Some((cmd.spec_status(), off)));
    let n = cmd.spec_data().len();
    assert(s.subrange(off as int, (off + n) as int) =~= cmd.spec_data());
    assert(command_of(cmd.spec_status(), cmd.spec_data()) == cmd);
}

} // verus!
