//! A MIDI command with the optional delta time that precedes it in a command list.
use super::delta_time::{spec_byte_length, DeltaTime};
use super::midi_command::{parse_in_bounds, spec_parse, MidiCommand};
use crate::endian::tail_mut;
use crate::io::{Error, ErrorKind};
use vstd::prelude::*;

verus! {

/// A command and, unless it is the first of a list without one, its delta time.
#[derive(Debug, Clone, Copy, PartialEq, Eq)]
pub struct TimedCommand {
    delta_time: Option<DeltaTime>,
    command: MidiCommand,
}

/// How many bytes of delta time come first: none when there is no delta time
/// to read, else the length of the delta time at the front (`None` when there is
/// no valid one).
pub open spec fn delta_prefix_len(bytes: Seq<u8>, has_delta_time: bool) -> Option<nat> {
    if has_delta_time {
        spec_byte_length(bytes)
    } else {
        Some(0)
    }
}

/// The inputs on which reading a timed command stays within `bytes`.
pub open spec fn timed_parse_in_bounds(
    bytes: Seq<u8>,
    running_status: Option<u8>,
    has_delta_time: bool,
) -> bool {
    match delta_prefix_len(bytes, has_delta_time) {
        Some(k) => parse_in_bounds(bytes.skip(k as int), running_status),
        None => true,
    }
}

/// The delta-time bytes (if any are read), the command and the total length of
/// the timed command at the front of `bytes`, or `None` if either part fails.
pub open spec fn spec_timed_parse(bytes: Seq<u8>, running_status: Option<u8>, has_delta_time: bool) -> Option<
    (Option<Seq<u8>>, MidiCommand, nat),
> {
    match delta_prefix_len(bytes, has_delta_time) {
        Some(k) => match spec_parse(bytes.skip(k as int), running_status) {
            Some((c, m)) => Some(
                (if has_delta_time {
                    Some(bytes.take(k as int))
                } else {
                    None
                }, c, k + m),
            ),
            None => None,
        },
        None => None,
    }
}

impl TimedCommand {
    /// The bytes of the delta time, if it has one.
    pub open spec fn spec_delta_bytes_opt(self) -> Option<Seq<u8>> {
        match self.spec_delta_time() {
            Some(d) => Some(d.bytes()),
            None => None,
        }
    }

    pub closed spec fn spec_delta_time(self) -> Option<DeltaTime> {
        self.delta_time
    }

    pub closed spec fn spec_command(self) -> MidiCommand {
        self.command
    }

    /// The delta-time bytes written before the command when delta times are
    /// written: its own, or a single zero byte when it has none.
    pub open spec fn spec_delta_bytes(self) -> Seq<u8> {
        match self.spec_delta_time() {
            Some(d) => d.bytes(),
            None => seq![0u8],
        }
    }

    /// The bytes written for this command.
    pub open spec fn spec_encoding(self, running_status: Option<u8>, write_delta_time: bool) -> Seq<
        u8,
    > {
        if write_delta_time {
            self.spec_delta_bytes() + self.spec_command().spec_encoding(running_status)
        } else {
            self.spec_command().spec_encoding(running_status)
        }
    }

    pub fn new(delta_time: Option<DeltaTime>, command: MidiCommand) -> (t: TimedCommand)
        ensures
            t.spec_delta_time() == delta_time,
            t.spec_command() == command,
    {
        TimedCommand { delta_time, command }
    }

    pub fn delta_time(&self) -> (d: Option<&DeltaTime>)
        ensures
            match self.spec_delta_time() {
                Some(x) => d == Some(&x),
                None => d is None,
            },
    {
        self.delta_time.as_ref()
    }

    pub fn command(&self) -> (c: &MidiCommand)
        ensures
            *c == self.spec_command(),
    {
        &self.command
    }

    /// Reads a delta time (when `has_delta_time`) and then a command from the
    /// front of `bytes`. Returns the timed command and the bytes read. The errors
    /// are those of the delta time and of the command.
    pub fn from_be_bytes(bytes: &[u8], running_status: Option<u8>, has_delta_time: bool) -> (r:
        Result<(Self, usize), Error>)
        requires
            timed_parse_in_bounds(bytes@, running_status, has_delta_time),
        ensures
            match r {
                Ok((t, n)) => {
                    &&& spec_timed_parse(bytes@, running_status, has_delta_time) == Some(
                        (t.spec_delta_bytes_opt(), t.spec_command(), n as nat),
                    )
                    &&& t.spec_delta_time() matches Some(d) ==> d.wf()
                },
                Err(e) => {
                    &&& spec_timed_parse(bytes@, running_status, has_delta_time) is None
                    &&& e.kind == (if has_delta_time && bytes@.len() == 0 {
                        ErrorKind::UnexpectedEof
                    } else {
                        ErrorKind::InvalidData
                    })
                },
            },
    {
        let mut bytes_read: usize = 0;
        let delta_time = if has_delta_time {
            let delta_time = match DeltaTime::from_be_bytes(bytes) {
                Ok(d) => d,
                Err(e) => return Err(e),
            };
            proof {
                super::delta_time::lemma_byte_length_well_terminated(bytes@);
            }
            bytes_read += delta_time.size();
            Some(delta_time)
        } else {
            None
        };
        let (command, length) = match MidiCommand::from_be_bytes(
            &bytes[bytes_read..bytes.len()],
            running_status,
        ) {
            Ok(x) => x,
            Err(e) => return Err(e),
        };
        bytes_read += length;
        Ok((TimedCommand { delta_time, command }, bytes_read))
    }

    /// Writes the delta time (when `write_delta_time`; a zero byte if it has
    /// none) and then the command. Fails with `WriteZero`, writing nothing, when
    /// the delta time does not fit.
    pub fn write_to_bytes(&self, bytes: &mut [u8], running_status: Option<u8>, write_delta_time: bool) -> (r:
        Result<usize, Error>)
        requires
            old(bytes)@.len() >= self.spec_encoding(running_status, write_delta_time).len() || (
            write_delta_time && old(bytes)@.len() < self.spec_delta_bytes().len()),
        ensures
            match r {
                Ok(n) => {
                    &&& n == self.spec_encoding(running_status, write_delta_time).len()
                    &&& final(bytes)@ == self.spec_encoding(running_status, write_delta_time)
                        + old(bytes)@.skip(n as int)
                },
                Err(e) => {
                    &&& write_delta_time
                    &&& old(bytes)@.len() < self.spec_delta_bytes().len()
                    &&& e.kind == ErrorKind::WriteZero
                    &&& final(bytes)@ == old(bytes)@
                },
            },
    {
        let mut bytes_written: usize = 0;
        if write_delta_time {
            let written = if let Some(ref delta_time) = self.delta_time {
                delta_time.write_to_bytes(bytes)
            } else {
                DeltaTime::zero().write_to_bytes(bytes)
            };
            match written {
                Ok(n) => bytes_written += n,
                Err(e) => return Err(e),
            }
            assert(bytes_written == self.spec_delta_bytes().len());
            assert(bytes@ == self.spec_delta_bytes() + old(bytes)@.skip(bytes_written as int));
        }
        assert(old(bytes)@.len() >= self.spec_encoding(running_status, write_delta_time).len());
        let ghost mid = bytes@;
        let tail = tail_mut(bytes, bytes_written);
        let n = match self.command.write_to_bytes(tail, running_status) {
            Ok(n) => n,
            Err(e) => return Err(e),
        };
        bytes_written += n;
        assert(bytes@ =~= self.spec_encoding(running_status, write_delta_time) + old(bytes)@.skip(
            bytes_written as int,
        ));
        Ok(bytes_written)
    }
}

/// Reading back a timed command written with its delta time gives its delta-time
/// bytes (a zero byte if it had none), its command and the length written,
/// whatever follows; the command must satisfy the condition of the command law.
pub proof fn lemma_write_then_read(t: TimedCommand, running_status: Option<u8>, rest: Seq<u8>)
    requires
        t.spec_delta_time() matches Some(d) ==> d.wf(),
        t.spec_command().spec_channel() < 16,
        running_status == Some(t.spec_command().spec_status()) ==> t.spec_command().spec_data()[0]
            < 0x80,
    ensures
        timed_parse_in_bounds(t.spec_encoding(running_status, true) + rest, running_status, true),
        spec_timed_parse(t.spec_encoding(running_status, true) + rest, running_status, true) == Some(
            (
                Some(t.spec_delta_bytes()),
                t.spec_command(),
                t.spec_encoding(running_status, true).len(),
            ),
        ),
{
    let db = t.spec_delta_bytes();
    let ce = t.spec_command().spec_encoding(running_status);
    let s = t.spec_encoding(running_status, true) + rest;
    assert(s =~= db + (ce + rest));
    assert(super::delta_time::well_terminated(db)) by {
        if t.spec_delta_time() is None {
            assert(db =~= seq![0u8]);
        }
    }
    assert(db.len() <= 4) by {
        if let Some(d) = t.spec_delta_time() {
            match d {
                DeltaTime::OneByte(_) => {},
                DeltaTime::TwoByte(_) => {},
                DeltaTime::ThreeByte(_) => {},
                DeltaTime::FourByte(_) => {},
            }
        }
    }
    super::delta_time::lemma_well_terminated_byte_length(db, ce + rest);
    assert(s.skip(db.len() as int) =~= ce + rest);
    super::midi_command::lemma_write_then_read(t.spec_command(), running_status, rest);
}

} // verus!
