//! A MIDI command with the delta time that may precede it, read from a byte
//! stream and appended to a byte sink.
use super::delta_time::{lemma_write_then_read as lemma_time_write_then_read, spec_read_time, DeltaTime};
use crate::io::{Error, ErrorKind};
use crate::packets::midi_packets::delta_time::vlq_bytes;
use crate::packets::midi_packets::midi_command::{
    lemma_write_then_read as lemma_command_write_then_read, read_in_bounds, spec_read, MidiCommand,
};
use crate::packets::midi_packets::midi_command_iterator::{lemma_sysex_end_bound, EventView};
use crate::packet::midi_packet::delta_time::lemma_terminator_index_facts;
use crate::packets::midi_packets::midi_timed_command::TimedCommand as Event;
use crate::stream::{ByteReader, ByteSink};
use vstd::prelude::*;

verus! {

#[derive(Debug, Clone, PartialEq)]
pub struct TimedCommand {
    delta_time: Option<DeltaTime>,
    command: MidiCommand,
}

/// What `read` takes from a stream whose unread bytes are `rest`: the delta
/// time if one is read, the status byte and the bytes after it that make the
/// command, and the number of bytes read.
pub open spec fn spec_timed_read(rest: Seq<u8>, running_status: Option<u8>, read_delta_time: bool) -> Result<
    (Option<nat>, u8, Seq<u8>, nat),
    ErrorKind,
> {
    if read_delta_time {
        match spec_read_time(rest) {
            None => Err(ErrorKind::UnexpectedEof),
            Some((t, n)) => match spec_read(rest.skip(n as int), running_status) {
                Ok((s, p, m)) => Ok((Some(t as nat), s, p, n + m)),
                Err(k) => Err(k),
            },
        }
    } else {
        match spec_read(rest, running_status) {
            Ok((s, p, m)) => Ok((None, s, p, m)),
            Err(k) => Err(k),
        }
    }
}

/// The inputs on which `read` does not index out of its data buffer.
pub open spec fn timed_read_in_bounds(rest: Seq<u8>, running_status: Option<u8>, read_delta_time: bool) -> bool {
    if read_delta_time {
        match spec_read_time(rest) {
            None => true,
            Some((t, n)) => read_in_bounds(rest.skip(n as int), running_status),
        }
    } else {
        read_in_bounds(rest, running_status)
    }
}

/// `t` is what was read as `e`.
pub open spec fn timed_read_as(t: TimedCommand, e: EventView) -> bool {
    &&& match e.0 {
        Some(d) => t.spec_delta_time() == Some(d as u32),
        None => t.spec_delta_time() is None,
    }
    &&& t.spec_command().is_read_as(e.1, e.2)
}

impl TimedCommand {
    pub closed spec fn spec_delta_time(&self) -> Option<u32> {
        match self.delta_time {
            Some(d) => Some(d.value()),
            None => None,
        }
    }

    pub closed spec fn spec_command(&self) -> MidiCommand {
        self.command
    }

    /// The same delta time and command, as a command of a list.
    pub open spec fn as_event(&self) -> Event {
        Event::spec_new(self.spec_delta_time(), self.spec_command())
    }

    /// The bytes that `write` appends: the delta time when `write_delta_time`
    /// holds (zero when there is none), then the command under `running_status`.
    pub open spec fn spec_write_bytes(&self, running_status: Option<u8>, write_delta_time: bool) -> Seq<u8> {
        let dt = if write_delta_time {
            vlq_bytes(
                match self.spec_delta_time() {
                    Some(t) => t,
                    None => 0u32,
                },
            )
        } else {
            Seq::<u8>::empty()
        };
        dt + self.spec_command().spec_write_bytes(running_status)
    }

    pub fn new(delta_time: Option<DeltaTime>, command: MidiCommand) -> (t: Self)
        ensures
            t.spec_delta_time() == match delta_time {
                Some(d) => Some(d.value()),
                None => None::<u32>,
            },
            t.spec_command() == command,
    {
        TimedCommand { delta_time, command }
    }

    /// A copy of the timed command.
    pub fn duplicate(&self) -> (t: Self)
        ensures
            t.spec_delta_time() == self.spec_delta_time(),
            t.spec_command().same_as(self.spec_command()),
    {
        TimedCommand { delta_time: self.delta_time, command: self.command.duplicate() }
    }

    pub fn delta_time(&self) -> (d: Option<&DeltaTime>)
        ensures
            match d {
                Some(x) => self.spec_delta_time() == Some(x.value()),
                None => self.spec_delta_time() is None,
            },
    {
        match &self.delta_time {
            Some(d) => Some(d),
            None => None,
        }
    }

    pub fn command(&self) -> (c: &MidiCommand)
        ensures
            *c == self.spec_command(),
    {
        &self.command
    }

    /// Reads the delta time when `read_delta_time` holds, then the command
    /// under `running_status`. Fails as either read fails.
    pub fn read(reader: &mut ByteReader, running_status: Option<u8>, read_delta_time: bool) -> (r: Result<Self, Error>)
        requires
            old(reader).wf(),
            timed_read_in_bounds(old(reader).rest(), running_status, read_delta_time),
        ensures
            final(reader).wf(),
            final(reader).spec_data() == old(reader).spec_data(),
            match spec_timed_read(old(reader).rest(), running_status, read_delta_time) {
                Ok((d, s, p, n)) => {
                    &&& r matches Ok(t) && timed_read_as(t, (d, s, p))
                    &&& final(reader).rest() == old(reader).rest().skip(n as int)
                },
                Err(k) => r matches Err(e) && e.kind == k,
            },
    {
        let ghost rest0 = reader.rest();
        let delta_time = if read_delta_time {
            match DeltaTime::read(reader) {
                Ok(d) => Some(d),
                Err(e) => return Err(e),
            }
        } else {
            None
        };
        let ghost rest1 = reader.rest();
        let command = match MidiCommand::read(reader, running_status) {
            Ok(c) => c,
            Err(e) => return Err(e),
        };
        proof {
            if read_delta_time {
                let (t, n) = spec_read_time(rest0).unwrap();
                if let Ok((s, p, m)) = spec_read(rest1, running_status) {
                    lemma_read_time_len(rest0);
                    lemma_read_len(rest1, running_status);
                    assert(rest0.skip(n as int).skip(m as int) =~= rest0.skip((n + m) as int));
                }
            }
        }
        Ok(TimedCommand { delta_time, command })
    }

    /// Appends the delta time when `write_delta_time` holds (zero when there is
    /// none), then the command under `running_status`; returns the number of
    /// bytes appended.
    pub fn write<W: ByteSink>(&self, writer: &mut W, running_status: Option<u8>, write_delta_time: bool) -> (r:
        Result<usize, Error>)
        requires
            old(writer).sink_room() >= self.spec_command().spec_payload().len() + 8,
            self.spec_command().spec_payload().len() + 8 <= usize::MAX,
        ensures
            r matches Ok(n) && n == self.spec_write_bytes(running_status, write_delta_time).len(),
            final(writer).sink_contents() == old(writer).sink_contents() + self.spec_write_bytes(
                running_status,
                write_delta_time,
            ),
            final(writer).sink_room() == old(writer).sink_room() - self.spec_write_bytes(
                running_status,
                write_delta_time,
            ).len(),
    {
        let ghost start = writer.sink_contents();
        let mut bytes_written: usize = 0;
        if write_delta_time {
            let n = match &self.delta_time {
                Some(delta_time) => delta_time.write(writer),
                None => DeltaTime::zero().write(writer),
            };
            bytes_written = match n {
                Ok(n) => n,
                Err(e) => return Err(e),
            };
        }
        let m = match self.command.write(writer, running_status) {
            Ok(m) => m,
            Err(e) => return Err(e),
        };
        assert(writer.sink_contents() =~= start + self.spec_write_bytes(running_status, write_delta_time));
        Ok(bytes_written + m)
    }
}

/// A timed command and the same command as a command of a list have the same
/// delta time, command and bytes.
pub proof fn lemma_as_event(t: TimedCommand)
    ensures
        t.as_event().spec_delta_time() == t.spec_delta_time(),
        t.as_event().spec_command() == t.spec_command(),
        forall|rs: Option<u8>, wd: bool| #[trigger] t.as_event().spec_write_bytes(rs, wd) == t.spec_write_bytes(rs, wd),
{
    Event::lemma_spec_new(t.spec_delta_time(), t.spec_command());
}

/// Reading a timed command that succeeds takes at least one byte and no more
/// than there are.
pub proof fn lemma_timed_read_len(rest: Seq<u8>, running_status: Option<u8>, read_delta_time: bool)
    ensures
        spec_timed_read(rest, running_status, read_delta_time) matches Ok((d, s, p, n)) ==> 1 <= n
            <= rest.len(),
{
    lemma_read_time_len(rest);
    lemma_read_len(rest, running_status);
    if let Some((t, n)) = spec_read_time(rest) {
        lemma_read_len(rest.skip(n as int), running_status);
    }
}

/// A delta time that is read lies within the bytes.
pub proof fn lemma_read_time_len(rest: Seq<u8>)
    ensures
        spec_read_time(rest) matches Some((t, n)) ==> 1 <= n <= rest.len(),
{
    lemma_terminator_index_facts(rest);
}

/// A command that is read lies within the bytes and takes at least one.
pub proof fn lemma_read_len(rest: Seq<u8>, running_status: Option<u8>)
    ensures
        spec_read(rest, running_status) matches Ok((s, p, m)) ==> 1 <= m <= rest.len(),
{
    if rest.len() > 0 && rest[0] == 0xF0 {
        lemma_sysex_end_bound(rest.skip(1));
    }
}

/// A timed channel voice message reads back from a stream as written: its
/// delta time (zero when it had none) if one was written, and its command,
/// whatever follows, when the conditions of the command's own law hold.
pub proof fn lemma_write_then_read(t: TimedCommand, running_status: Option<u8>, with_delta_time: bool, rest: Seq<u8>)
    requires
        t.spec_command().wf(),
        !(t.spec_command() is SysEx),
        running_status == Some(t.spec_command().spec_status()) ==> t.spec_command().spec_payload()[0]
            < 0x80,
    ensures
        ({
            let dt: u32 = match t.spec_delta_time() {
                Some(d) => d,
                None => 0,
            };
            let bytes = t.spec_write_bytes(running_status, with_delta_time) + rest;
            let c = t.spec_command();
            &&& timed_read_in_bounds(bytes, running_status, with_delta_time)
            &&& spec_timed_read(bytes, running_status, with_delta_time) == Ok::<
                (Option<nat>, u8, Seq<u8>, nat),
                ErrorKind,
            >(
                (
                    if with_delta_time {
                        Some(dt as nat)
                    } else {
                        None
                    },
                    c.spec_status(),
                    c.spec_payload(),
                    t.spec_write_bytes(running_status, with_delta_time).len(),
                ),
            )
        }),
{
    let c = t.spec_command();
    let dt: u32 = match t.spec_delta_time() {
        Some(d) => d,
        None => 0,
    };
    let cb = c.spec_write_bytes(running_status);
    lemma_command_write_then_read(c, running_status, rest);
    if with_delta_time {
        let bytes = vlq_bytes(dt) + (cb + rest);
        assert(t.spec_write_bytes(running_status, with_delta_time) + rest =~= bytes);
        lemma_time_write_then_read(dt, cb + rest);
        assert(bytes.skip(vlq_bytes(dt).len() as int) =~= cb + rest);
    } else {
        assert(t.spec_write_bytes(running_status, with_delta_time) =~= cb);
    }
}

} // verus!
