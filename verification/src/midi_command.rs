//! A MIDI channel voice command with its delta time, read from the front of a
//! byte slice under a running status and channel.
use crate::delta_time::{spec_delta_time_from_bytes, DeltaTime};
use crate::stream::put_slice;
use crate::byte_facts::lemma_byte_bits;
use vstd::prelude::*;

verus! {

#[derive(Clone, Debug)]
pub struct MidiCommand {
    pub delta_time: DeltaTime,
    pub command: CommandType,
    pub channel: u8,
    pub data: Vec<u8>,
}

#[derive(Debug, Clone, Copy, PartialEq, Eq, Structural)]
pub enum CommandType {
    NoteOff,
    NoteOn,
    PolyphonicKeyPressure,
    ControlChange,
    ProgramChange,
    ChannelPressure,
    PitchBend,
}

/// The command type that the upper four bits of a status byte name.
pub open spec fn spec_command_type(value: u8) -> Option<CommandType> {
    let t = value & 0xF0;
    if t == 0x80 {
        Some(CommandType::NoteOff)
    } else if t == 0x90 {
        Some(CommandType::NoteOn)
    } else if t == 0xA0 {
        Some(CommandType::PolyphonicKeyPressure)
    } else if t == 0xB0 {
        Some(CommandType::ControlChange)
    } else if t == 0xC0 {
        Some(CommandType::ProgramChange)
    } else if t == 0xD0 {
        Some(CommandType::ChannelPressure)
    } else if t == 0xE0 {
        Some(CommandType::PitchBend)
    } else {
        None
    }
}

impl CommandType {
    /// The upper four bits that MIDI gives the status byte of a command of this
    /// type: 0x80 note off, 0x90 note on, 0xA0 polyphonic key pressure, 0xB0
    /// control change, 0xC0 program change, 0xD0 channel pressure, 0xE0 pitch
    /// bend.
    pub open spec fn spec_status_nibble(self) -> u8 {
        match self {
            CommandType::NoteOff => 0x80,
            CommandType::NoteOn => 0x90,
            CommandType::PolyphonicKeyPressure => 0xA0,
            CommandType::ControlChange => 0xB0,
            CommandType::ProgramChange => 0xC0,
            CommandType::ChannelPressure => 0xD0,
            CommandType::PitchBend => 0xE0,
        }
    }

    /// The number of data bytes of a command of this type.
    pub open spec fn spec_size(self) -> nat {
        match self {
            CommandType::ProgramChange | CommandType::ChannelPressure => 1,
            _ => 2,
        }
    }

    pub fn size(&self) -> (n: usize)
        ensures
            n == self.spec_size(),
    {
        match self {
            CommandType::NoteOff | CommandType::NoteOn => 2,
            CommandType::PolyphonicKeyPressure | CommandType::ControlChange => 2,
            CommandType::ProgramChange | CommandType::ChannelPressure => 1,
            CommandType::PitchBend => 2,
        }
    }

    /// The type that the upper four bits of `value` name; they must name one.
    pub fn from(value: u8) -> (t: CommandType)
        requires
            spec_command_type(value) is Some,
        ensures
            spec_command_type(value) == Some(t),
    {
        let x = value & 0xF0;
        assert(x & 0xF0 == x) by {
            lemma_byte_bits();
            assert((value & 0xF0) & 0xF0 == value & 0xF0);
        }
        match value & 0xF0 {
            0x80 => CommandType::NoteOff,
            0x90 => CommandType::NoteOn,
            0xA0 => CommandType::PolyphonicKeyPressure,
            0xB0 => CommandType::ControlChange,
            0xC0 => CommandType::ProgramChange,
            0xD0 => CommandType::ChannelPressure,
            _ => CommandType::PitchBend,
        }
    }
}

/// Where the command starts, after its delta time when it has one: `None`
/// when the delta time cannot be read.
pub open spec fn command_start(bytes: Seq<u8>, has_delta_time: bool) -> Option<(nat, nat)> {
    if has_delta_time {
        spec_delta_time_from_bytes(bytes)
    } else {
        Some((0, 0))
    }
}

/// The inputs on which `from_bytes` stays within `bytes` and names a known type.
pub open spec fn from_bytes_in_bounds(
    bytes: Seq<u8>,
    has_delta_time: bool,
    running_status: Option<CommandType>,
    running_channel: Option<u8>,
) -> bool {
    match command_start(bytes, has_delta_time) {
        None => true,
        Some((_, i)) => {
            &&& bytes.len() >= 1
            &&& if bytes[0] < 0x80 {
                match (running_status, running_channel) {
                    (Some(s), Some(_)) => i + s.spec_size() <= bytes.len(),
                    _ => true,
                }
            } else {
                spec_command_type(bytes[0]) matches Some(t) && i + 1 + t.spec_size() <= bytes.len()
            }
        },
    }
}

/// A command as read: its delta time, type, channel and data bytes.
pub type CommandView = (nat, CommandType, u8, Seq<u8>);

/// What `from_bytes` gives: the command and the bytes read, or why it failed.
pub open spec fn spec_command_from_bytes(
    bytes: Seq<u8>,
    has_delta_time: bool,
    running_status: Option<CommandType>,
    running_channel: Option<u8>,
) -> Result<(CommandView, nat), Seq<char>> {
    match command_start(bytes, has_delta_time) {
        None => Err("Error parsing delta time: Not enough data for delta time"@),
        Some((t, i)) => if bytes[0] < 0x80 && running_status is None {
            Err("Null running status"@)
        } else if bytes[0] < 0x80 && running_channel is None {
            Err("Null running channel"@)
        } else {
            let (command, channel, start): (CommandType, u8, nat) = if bytes[0] < 0x80 {
                (running_status.unwrap(), running_channel.unwrap(), i)
            } else {
                (spec_command_type(bytes[0]).unwrap(), bytes[0] & 0x0F, i + 1)
            };
            Ok(
                (
                    (t, command, channel, bytes.subrange(start as int, (start + command.spec_size()) as int)),
                    start + command.spec_size(),
                ),
            )
        },
    }
}

impl MidiCommand {
    pub open spec fn spec_view(&self) -> CommandView {
        (self.delta_time.delta_time as nat, self.command, self.channel, self.data@)
    }

    /// Reads a command: its delta time when `has_delta_time` holds, then, when
    /// the first byte of `bytes` has its top bit set, that byte as the status
    /// (type and channel), else the running status and channel; then the data
    /// bytes. Returns the command and the bytes read.
    pub fn from_bytes(
        bytes: &[u8],
        has_delta_time: bool,
        running_status: Option<CommandType>,
        running_channel: Option<u8>,
    ) -> (r: Result<(Self, usize), String>)
        requires
            from_bytes_in_bounds(bytes@, has_delta_time, running_status, running_channel),
        ensures
            match spec_command_from_bytes(bytes@, has_delta_time, running_status, running_channel) {
                Ok((v, n)) => r matches Ok((c, m)) && c.spec_view() == v && m == n,
                Err(msg) => r matches Err(e) && e@ == msg,
            },
    {
        let mut i: usize = 0;
        let delta_time = if has_delta_time {
            match DeltaTime::from_bytes(bytes) {
                Ok((delta_time, length)) => {
                    i += length;
                    delta_time
                },
                Err(_) => {
                    return Err("Error parsing delta time: Not enough data for delta time".to_owned());
                },
            }
        } else {
            DeltaTime::new(0)
        };
        let b0 = bytes[0];
        assert(b0 & 0x80 == 0 <==> b0 < 0x80) by { lemma_byte_bits(); }
        let (command, channel) = if bytes[0] & 0x80 == 0 {
            let status = match running_status {
                Some(status) => status,
                None => return Err("Null running status".to_owned()),
            };
            let channel = match running_channel {
                Some(channel) => channel,
                None => return Err("Null running channel".to_owned()),
            };
            (status, channel)
        } else {
            i = i + 1;
            assert((b0 & 0xF0) & 0xF0 == b0 & 0xF0) by { lemma_byte_bits(); }
            (CommandType::from(bytes[0] & 0xF0), bytes[0] & 0x0F)
        };
        let data_length = command.size();
        let mut data: Vec<u8> = Vec::new();
        put_slice(&mut data, &bytes[i..data_length + i]);
        let length = data_length + i;
        Ok((MidiCommand { delta_time, command, channel, data }, length))
    }
}

/// A status byte names the command type whose MIDI status nibble is its upper
/// four bits, and no other.
pub proof fn lemma_command_type_of_status(value: u8, t: CommandType)
    ensures
        spec_command_type(value) == Some(t) <==> t.spec_status_nibble() == value & 0xF0,
{
}

/// A command read by `from_bytes` with no delta time from bytes that start with
/// a status byte (on the inputs that `from_bytes` accepts) is read and has the
/// type whose MIDI status nibble is that byte's upper four bits, the
/// channel in its lower four bits, and the data bytes after it, as many as the
/// type has.
pub proof fn lemma_from_bytes_status(bytes: Seq<u8>, running_status: Option<CommandType>, running_channel: Option<u8>)
    requires
        bytes.len() >= 1,
        bytes[0] >= 0x80,
        from_bytes_in_bounds(bytes, false, running_status, running_channel),
    ensures
        spec_command_from_bytes(bytes, false, running_status, running_channel) is Ok,
        ({
            let (v, n) = spec_command_from_bytes(bytes, false, running_status, running_channel)->Ok_0;
            &&& v.1.spec_status_nibble() == bytes[0] & 0xF0
            &&& v.2 == bytes[0] & 0x0F
            &&& v.3 == bytes.subrange(1, 1 + v.1.spec_size() as int)
            &&& n == 1 + v.1.spec_size()
        }),
{
    let t = spec_command_type(bytes[0]).unwrap();
    lemma_command_type_of_status(bytes[0], t);
}

} // verus!
