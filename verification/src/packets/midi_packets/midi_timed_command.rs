//! A MIDI command with the delta time that precedes it in a command list.
use super::delta_time::{read_delta_time, spec_read_delta_time, vlq_bytes, WriteDeltaTimeExt};
use super::midi_command::{from_be_bytes_in_bounds, spec_from_be_bytes, MidiCommand};
use crate::io::{Error, ErrorKind};
use crate::stream::ByteSink;
use bytes::BytesMut;
use vstd::prelude::*;

verus! {

/// A command and its delta time, if it had one.
#[derive(Debug, Clone, PartialEq)]
pub struct TimedCommand {
    delta_time: Option<u32>,
    command: MidiCommand,
}

/// What `from_be_bytes` reads at the front of `bytes`: the delta time if one
/// is read, the status byte and the bytes after it that make the command, and
/// the bytes that follow the command.
pub open spec fn spec_timed_from_be_bytes(
    bytes: Seq<u8>,
    should_read_delta_time: bool,
    running_status: Option<u8>,
) -> Result<(Option<nat>, u8, Seq<u8>, Seq<u8>), ErrorKind> {
    if should_read_delta_time {
        match spec_read_delta_time(bytes) {
            Ok((t, rest)) => match spec_from_be_bytes(rest, running_status) {
                Ok((s, p, n)) => Ok((Some(t), s, p, rest.skip(n as int))),
                Err(k) => Err(k),
            },
            Err(k) => Err(k),
        }
    } else {
        match spec_from_be_bytes(bytes, running_status) {
            Ok((s, p, n)) => Ok((None, s, p, bytes.skip(n as int))),
            Err(k) => Err(k),
        }
    }
}

/// The inputs on which `from_be_bytes` stays within `bytes`.
pub open spec fn timed_in_bounds(bytes: Seq<u8>, should_read_delta_time: bool, running_status: Option<u8>) -> bool {
    if should_read_delta_time {
        match spec_read_delta_time(bytes) {
            Ok((t, rest)) => from_be_bytes_in_bounds(rest, running_status),
            Err(k) => true,
        }
    } else {
        from_be_bytes_in_bounds(bytes, running_status)
    }
}

impl TimedCommand {
    pub closed spec fn spec_delta_time(&self) -> Option<u32> {
        self.delta_time
    }

    pub closed spec fn spec_command(&self) -> MidiCommand {
        self.command
    }

    /// The timed command with the given delta time and command.
    pub closed spec fn spec_new(delta_time: Option<u32>, command: MidiCommand) -> TimedCommand {
        TimedCommand { delta_time, command }
    }

    /// A timed command made by `spec_new` has the delta time and command it was made with.
    pub proof fn lemma_spec_new(delta_time: Option<u32>, command: MidiCommand)
        ensures
            TimedCommand::spec_new(delta_time, command).spec_delta_time() == delta_time,
            TimedCommand::spec_new(delta_time, command).spec_command() == command,
    {
    }

    /// The bytes that `write` appends.
    pub open spec fn spec_write_bytes(&self, running_status: Option<u8>, write_delta_time: bool) -> Seq<u8> {
        let dt = if write_delta_time {
            vlq_bytes(
                match self.spec_delta_time() {
                    Some(t) => t,
                    None => 0u32,
                },
            )
        } else {
            Seq::<u8>::empty()
        };
        dt + self.spec_command().spec_write_bytes(running_status)
    }

    pub fn new(delta_time: Option<u32>, command: MidiCommand) -> (t: Self)
        ensures
            t.spec_delta_time() == delta_time,
            t.spec_command() == command,
    {
        TimedCommand { delta_time, command }
    }

    /// The delta time, zero when there is none.
    pub fn delta_time(&self) -> (t: u32)
        ensures
            t == match self.spec_delta_time() {
                Some(d) => d,
                None => 0,
            },
    {
        match self.delta_time {
            Some(d) => d,
            None => 0,
        }
    }

    pub fn command(&self) -> (c: &MidiCommand)
        ensures
            *c == self.spec_command(),
    {
        &self.command
    }

    /// Reads a command, preceded by its delta time when `should_read_delta_time`
    /// holds, from the front of `bytes`, and returns it with the bytes after it.
    /// Fails as reading the delta time or the command fails.
    pub fn from_be_bytes(bytes: &[u8], should_read_delta_time: bool, running_status: Option<u8>) -> (r: Result<(Self, &[u8]), Error>)
        requires
            timed_in_bounds(bytes@, should_read_delta_time, running_status),
        ensures
            match spec_timed_from_be_bytes(bytes@, should_read_delta_time, running_status) {
                Ok((t, s, p, rest)) => r matches Ok((tc, remaining)) && (match t {
                    Some(d) => tc.spec_delta_time() == Some(d as u32),
                    None => tc.spec_delta_time() is None,
                }) && tc.spec_command().is_read_as(s, p) && remaining@ == rest,
                Err(k) => r matches Err(e) && e.kind == k,
            },
    {
        let mut delta_time: Option<u32> = None;
        let mut bytes = bytes;
        let ghost orig = bytes@;
        if should_read_delta_time {
            let (dt, new_bytes) = match read_delta_time(bytes) {
                Ok(x) => x,
                Err(e) => return Err(e),
            };
            delta_time = Some(dt);
            bytes = new_bytes;
        }
        let (command, offset) = match MidiCommand::from_be_bytes(bytes, running_status) {
            Ok(x) => x,
            Err(e) => return Err(e),
        };
        let rest = &bytes[offset..bytes.len()];
        assert(rest@ =~= bytes@.skip(offset as int));
        Ok((TimedCommand { delta_time, command }, rest))
    }

    /// Appends the delta time, when `write_delta_time` holds (zero when there is
    /// none), then the command under `running_status`.
    pub fn write(&self, bytes: &mut BytesMut, running_status: Option<u8>, write_delta_time: bool)
        requires
            old(bytes).sink_room() >= self.spec_command().spec_payload().len() + 8,
            self.spec_command().spec_payload().len() + 3 <= usize::MAX,
        ensures
            final(bytes).sink_contents() == old(bytes).sink_contents() + self.spec_write_bytes(
                running_status,
                write_delta_time,
            ),
    {
        let ghost start = bytes.sink_contents();
        if write_delta_time {
            assert(bytes.spec_has_room(5));
            let _ = match self.delta_time {
                Some(dt) => bytes.write_delta_time(dt),
                None => bytes.write_delta_time(0),
            };
        }
        let ghost mid = bytes.sink_contents();
        let _ = self.command.write(bytes, running_status);
        assert(bytes.sink_contents() =~= start + self.spec_write_bytes(running_status, write_delta_time));
    }
}

/// A timed channel voice message reads back as written: its delta time (zero
/// when it had none) if one was written, and its command, whatever follows,
/// when the delta time fits in 28 bits and the conditions of the command's own
/// law hold.
pub proof fn lemma_write_then_read(
    t: TimedCommand,
    running_status: Option<u8>,
    with_delta_time: bool,
    rest: Seq<u8>,
)
    requires
        t.spec_command().wf(),
        !(t.spec_command() is SysEx),
        running_status == Some(t.spec_command().spec_status()) ==> t.spec_command().spec_payload()[0]
            < 0x80,
        with_delta_time ==> (t.spec_delta_time() matches Some(d) ==> d <= 0x0fff_ffff),
    ensures
        ({
            let dt: u32 = match t.spec_delta_time() {
                Some(d) => d,
                None => 0,
            };
            let bytes = t.spec_write_bytes(running_status, with_delta_time) + rest;
            &&& timed_in_bounds(bytes, with_delta_time, running_status)
            &&& spec_timed_from_be_bytes(bytes, with_delta_time, running_status) == Ok::<
                (Option<nat>, u8, Seq<u8>, Seq<u8>),
                ErrorKind,
            >(
                (
                    if with_delta_time {
                        Some(dt as nat)
                    } else {
                        None
                    },
                    t.spec_command().spec_status(),
                    t.spec_command().spec_payload(),
                    rest,
                ),
            )
        }),
{
    let cmd = t.spec_command();
    let cb = cmd.spec_write_bytes(running_status);
    super::midi_command::lemma_write_then_read(cmd, running_status, rest);
    assert((cb + rest).skip(cb.len() as int) =~= rest);
    if with_delta_time {
        let dt: u32 = match t.spec_delta_time() {
            Some(d) => d,
            None => 0,
        };
        super::delta_time::lemma_write_then_read(dt, cb + rest);
        assert(t.spec_write_bytes(running_status, with_delta_time) + rest =~= vlq_bytes(dt) + (cb
            + rest));
    } else {
        assert(t.spec_write_bytes(running_status, with_delta_time) + rest =~= cb + rest);
    }
}

} // verus!
