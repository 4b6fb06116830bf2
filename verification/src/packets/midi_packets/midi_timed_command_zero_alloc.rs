//! A timed MIDI command that borrows its bytes from the packet it was read from.
use super::delta_time_zero_alloc::DeltaTimeZeroAlloc;
use super::midi_command::{spec_size_from_status, MidiCommand};
use super::midi_command_zero_alloc::{
    spec_zero_alloc_parse, zero_alloc_in_bounds, MidiCommandZeroAlloc,
};
use crate::io::Error;
use crate::packet::midi_packet::delta_time::{lemma_terminator_index_facts, terminator_index, vlq_value};
use vstd::prelude::*;

verus! {

#[derive(Debug)]
pub struct MidiTimedCommandZeroAlloc<'a> {
    delta_time: Option<DeltaTimeZeroAlloc<'a>>,
    command: MidiCommandZeroAlloc<'a>,
}

/// Where the command starts: after the delta-time bytes, when they are read
/// (the bytes up to and including the first one whose top bit is clear).
pub open spec fn zero_alloc_command_offset(bytes: Seq<u8>, read_delta_time: bool) -> nat {
    if read_delta_time {
        match terminator_index(bytes) {
            Some(k) => k + 1,
            None => 0,
        }
    } else {
        0
    }
}

/// The inputs on which `from_be_bytes` stays within `bytes`.
pub open spec fn timed_zero_alloc_in_bounds(bytes: Seq<u8>, read_delta_time: bool, running_status: Option<u8>) -> bool {
    &&& read_delta_time ==> terminator_index(bytes) is Some
    &&& zero_alloc_in_bounds(bytes.skip(zero_alloc_command_offset(bytes, read_delta_time) as int), running_status)
}

impl<'a> MidiTimedCommandZeroAlloc<'a> {
    pub closed spec fn spec_delta_time(&self) -> Option<DeltaTimeZeroAlloc<'a>> {
        self.delta_time
    }

    pub closed spec fn spec_command(&self) -> MidiCommandZeroAlloc<'a> {
        self.command
    }

    /// Reads the delta-time bytes when `read_delta_time` holds, then a command
    /// after them; returns the command and the bytes used. Fails as reading the
    /// command fails.
    pub fn from_be_bytes(bytes: &'a [u8], read_delta_time: bool, running_status: Option<u8>) -> (r: Result<(Self, usize), Error>)
        requires
            timed_zero_alloc_in_bounds(bytes@, read_delta_time, running_status),
        ensures
            ({
                let offset = zero_alloc_command_offset(bytes@, read_delta_time);
                match spec_zero_alloc_parse(bytes@.skip(offset as int), running_status) {
                    Ok((s, d, n)) => r matches Ok((c, m)) && m == offset + n && c.spec_command().spec_status()
                        == s && c.spec_command().spec_data() == d && (match c.spec_delta_time() {
                        Some(dt) => read_delta_time && dt.spec_data() == bytes@.take(offset as int),
                        None => !read_delta_time,
                    }),
                    Err(k) => r matches Err(e) && e.kind == k,
                }
            }),
    {
        let (delta_time, offset) = if read_delta_time {
            let (dt, size) = DeltaTimeZeroAlloc::from_be_bytes(bytes);
            (Some(dt), size)
        } else {
            (None, 0)
        };
        proof {
            lemma_terminator_index_facts(bytes@);
        }
        let rest = &bytes[offset..bytes.len()];
        assert(rest@ =~= bytes@.skip(offset as int));
        let (command, command_size) = match MidiCommandZeroAlloc::from_be_bytes(rest, running_status) {
            Ok(x) => x,
            Err(e) => return Err(e),
        };
        Ok((MidiTimedCommandZeroAlloc { delta_time, command }, offset + command_size))
    }

    /// The delta time, zero when none was read.
    pub fn delta_time(&self) -> (t: u32)
        ensures
            t == match self.spec_delta_time() {
                Some(dt) => vlq_value(dt.spec_data()) % 0x1_0000_0000,
                None => 0,
            },
    {
        match &self.delta_time {
            Some(dt) => dt.delta_time(),
            None => 0,
        }
    }

    /// The command as an owned value; see `MidiCommandZeroAlloc::to_owned`.
    pub fn command(&self) -> (c: MidiCommand)
        requires
            self.spec_command().spec_status() >= 0x80,
            self.spec_command().spec_status() & 0xF0 != 0xF0 ==> self.spec_command().spec_data().len()
                >= spec_size_from_status(self.spec_command().spec_status()),
        ensures
            self.spec_command().spec_status() & 0xF0 == 0xF0 ==> c == (MidiCommand::SysEx { data: c->data })
                && c->data@ == self.spec_command().spec_data(),
            self.spec_command().spec_status() & 0xF0 != 0xF0 ==> c == self.spec_command().spec_owned(),
    {
        self.command.to_owned()
    }
}

} // verus!
