//! The body of a MIDI command list, read from a byte stream until it ends and
//! appended to a byte sink: timed commands one after another, each command's
//! status byte left out when it repeats the one before.
use super::midi_timed_command::{
    lemma_as_event, lemma_timed_read_len, lemma_write_then_read as lemma_timed_write_then_read,
    spec_timed_read, timed_read_as, timed_read_in_bounds, TimedCommand,
};
use crate::io::{Error, ErrorKind};
use crate::packet::midi_packet::delta_time::lemma_terminator_index;
use crate::packets::midi_packets::midi_command_iterator::{written_event, EventView};
use crate::packets::midi_packets::midi_command_list_body::{
    event_list_bytes, event_list_suffix, lemma_event_list_as_suffix, lemma_event_list_prefix_len,
    lemma_event_list_push, lemma_write_bytes_cover_payload, running_status_before,
};
use crate::packets::midi_packets::midi_command::MidiCommand;
use crate::packets::midi_packets::midi_timed_command::TimedCommand as Event;
use crate::stream::{ByteReader, ByteSink};
use vstd::prelude::*;

verus! {

#[derive(Debug, Clone, PartialEq)]
pub struct MidiCommandListBody {
    commands: Vec<TimedCommand>,
}

/// The timed commands as commands of a list.
pub open spec fn events_of(cmds: Seq<TimedCommand>) -> Seq<Event> {
    cmds.map_values(|t: TimedCommand| t.as_event())
}

/// What `size` gives for a list of `n` bytes: one more when `n` is above
/// fifteen.
pub open spec fn body_size(n: nat) -> nat {
    if n > 0x0F {
        n + 1
    } else {
        n
    }
}

/// What reading timed commands from a stream whose unread bytes are `rest`
/// gives: one after another, the first with a delta time only when
/// `read_delta_time` holds, each under the status of the one before, until the
/// stream ends (`UnexpectedEof` ends the list) or a read fails otherwise.
#[verifier::opaque]
pub open spec fn spec_list_read(rest: Seq<u8>, running_status: Option<u8>, read_delta_time: bool) -> Result<
    Seq<EventView>,
    ErrorKind,
>
    decreases rest.len(),
{
    match spec_timed_read(rest, running_status, read_delta_time) {
        Ok((d, s, p, n)) => if 0 < n <= rest.len() {
            match spec_list_read(rest.skip(n as int), Some(s), true) {
                Ok(l) => Ok(seq![(d, s, p)] + l),
                Err(k) => Err(k),
            }
        } else {
            Ok(seq![(d, s, p)])
        },
        Err(k) => if k == ErrorKind::UnexpectedEof {
            Ok(Seq::empty())
        } else {
            Err(k)
        },
    }
}

/// Every read of the list stays within its data buffer.
#[verifier::opaque]
pub open spec fn list_read_in_bounds(rest: Seq<u8>, running_status: Option<u8>, read_delta_time: bool) -> bool
    decreases rest.len(),
{
    &&& timed_read_in_bounds(rest, running_status, read_delta_time)
    &&& match spec_timed_read(rest, running_status, read_delta_time) {
        Ok((d, s, p, n)) => 0 < n <= rest.len() ==> list_read_in_bounds(rest.skip(n as int), Some(s), true),
        Err(_) => true,
    }
}

/// `seen` followed by what `r` holds, or the error of `r`.
pub open spec fn after(seen: Seq<EventView>, r: Result<Seq<EventView>, ErrorKind>) -> Result<Seq<EventView>, ErrorKind> {
    match r {
        Ok(l) => Ok(seen + l),
        Err(k) => Err(k),
    }
}

/// The conditions under which a list written to a stream reads back as
/// written: every command a channel voice message with its channel below 16,
/// and every command whose status repeats the one before with its first data
/// byte below 0x80.
pub open spec fn stream_reads_back(cmds: Seq<Event>) -> bool {
    forall|i: int|
        0 <= i < cmds.len() ==> {
            let c = #[trigger] cmds[i].spec_command();
            &&& c.wf()
            &&& !(c is SysEx)
            &&& running_status_before(cmds, i) == Some(c.spec_status()) ==> c.spec_payload()[0] < 0x80
        }
}

impl MidiCommandListBody {
    pub closed spec fn spec_commands(&self) -> Seq<TimedCommand> {
        self.commands@
    }

    /// The bytes that `write` appends.
    pub open spec fn spec_list_bytes(&self, z_flag: bool) -> Seq<u8> {
        event_list_bytes(events_of(self.spec_commands()), z_flag)
    }

    /// A body holding copies of `commands`.
    pub fn new(commands: &[TimedCommand]) -> (b: Self)
        ensures
            b.spec_commands().len() == commands@.len(),
            forall|i: int|
                0 <= i < commands@.len() ==> {
                    &&& #[trigger] b.spec_commands()[i].spec_delta_time() == commands@[i].spec_delta_time()
                    &&& b.spec_commands()[i].spec_command().same_as(commands@[i].spec_command())
                },
    {
        let mut v: Vec<TimedCommand> = Vec::new();
        let mut i: usize = 0;
        while i < commands.len()
            invariant
                i <= commands@.len(),
                v@.len() == i,
                forall|j: int|
                    0 <= j < i ==> {
                        &&& #[trigger] v@[j].spec_delta_time() == commands@[j].spec_delta_time()
                        &&& v@[j].spec_command().same_as(commands@[j].spec_command())
                    },
            decreases commands@.len() - i,
        {
            v.push(commands[i].duplicate());
            i = i + 1;
        }
        MidiCommandListBody { commands: v }
    }

    /// The number of bytes of the list, and one more when that is above fifteen.
    pub fn size(&self, z_flag: bool) -> (n: usize)
        requires
            self.spec_list_bytes(z_flag).len() + 1 <= usize::MAX,
        ensures
            n == body_size(self.spec_list_bytes(z_flag).len()),
    {
        let ghost cmds = events_of(self.commands@);
        let mut length: usize = 0;
        let mut running_status: Option<u8> = None;
        let mut i: usize = 0;
        proof {
            assert(cmds.take(0) =~= Seq::<Event>::empty());
            lemma_event_list_prefix_len(cmds, z_flag, 0);
        }
        while i < self.commands.len()
            invariant
                cmds == events_of(self.commands@),
                i <= cmds.len(),
                running_status == running_status_before(cmds, i as int),
                length == event_list_bytes(cmds.take(i as int), z_flag).len(),
                event_list_bytes(cmds, z_flag).len() + 1 <= usize::MAX,
            decreases cmds.len() - i,
        {
            let command = &self.commands[i];
            proof {
                lemma_as_event(*command);
                lemma_event_list_push(cmds, z_flag, i as int);
                lemma_event_list_prefix_len(cmds, z_flag, i + 1);
                lemma_write_bytes_cover_payload(cmds[i as int], running_status, i > 0 || z_flag);
            }
            if i > 0 || z_flag {
                match command.delta_time() {
                    Some(delta_time) => length += delta_time.size(),
                    None => {
                        length += 1;
                    },
                }
            }
            let status = command.command().status();
            let differs = match command.command() {
                MidiCommand::SysEx { .. } => false,
                _ => match running_status {
                    Some(rs) => rs != status,
                    None => true,
                },
            };
            if differs {
                length += 1;
            }
            length += command.command().size();
            running_status = Some(status);
            i = i + 1;
        }
        assert(cmds.take(i as int) =~= cmds);
        if length > 0x0F {
            length += 1;
        }
        length
    }

    pub fn commands(&self) -> (c: &[TimedCommand])
        ensures
            c@ == self.spec_commands(),
    {
        self.commands.as_slice()
    }

    /// Reads timed commands until the stream ends: the first with a delta time
    /// only when `z_flag` holds, each under the status of the one before.
    /// Running out of bytes, even within a command, ends the list; any other
    /// failure is returned.
    pub fn read(reader: &mut ByteReader, z_flag: bool) -> (r: Result<Self, Error>)
        requires
            old(reader).wf(),
            list_read_in_bounds(old(reader).rest(), None, z_flag),
        ensures
            final(reader).wf(),
            final(reader).spec_data() == old(reader).spec_data(),
            match spec_list_read(old(reader).rest(), None, z_flag) {
                Ok(l) => r matches Ok(b) && b.spec_commands().len() == l.len() && forall|i: int|
                    0 <= i < l.len() ==> timed_read_as(#[trigger] b.spec_commands()[i], l[i]),
                Err(k) => r matches Err(e) && e.kind == k,
            },
    {
        let ghost start = reader.rest();
        let mut commands: Vec<TimedCommand> = Vec::new();
        let mut running_status: Option<u8> = None;
        let mut read_delta_time = z_flag;
        let ghost mut seen: Seq<EventView> = Seq::empty();
        assert(seen + spec_list_read(start, None, z_flag)->Ok_0 =~= spec_list_read(start, None, z_flag)->Ok_0);
        loop
            invariant_except_break
                list_read_in_bounds(reader.rest(), running_status, read_delta_time),
                spec_list_read(start, None, z_flag) == after(
                    seen,
                    spec_list_read(reader.rest(), running_status, read_delta_time),
                ),
            invariant
                reader.wf(),
                reader.spec_data() == old(reader).spec_data(),
                start == old(reader).rest(),
                seen.len() == commands@.len(),
                forall|i: int| 0 <= i < seen.len() ==> timed_read_as(#[trigger] commands@[i], seen[i]),
            ensures
                spec_list_read(start, None, z_flag) == Ok::<Seq<EventView>, ErrorKind>(seen),
            decreases reader.rest().len(),
        {
            let ghost rest = reader.rest();
            let ghost rs0 = running_status;
            let ghost rd0 = read_delta_time;
            proof {
                lemma_timed_read_len(rest, running_status, read_delta_time);
                lemma_list_read_first_in_bounds(rest, running_status, read_delta_time);
                if let Ok((d, s, p, n)) = spec_timed_read(rest, running_status, read_delta_time) {
                    lemma_list_read_step(rest, running_status, read_delta_time, d, s, p, n);
                } else {
                    lemma_list_read_fail(rest, running_status, read_delta_time);
                }
            }
            match TimedCommand::read(reader, running_status, read_delta_time) {
                Ok(timed_command) => {
                    let ghost e = spec_timed_read(rest, running_status, read_delta_time)->Ok_0;
                    read_delta_time = true;
                    running_status = Some(timed_command.command().status());
                    commands.push(timed_command);
                    proof {
                        let ev: EventView = (e.0, e.1, e.2);
                        let tail = spec_list_read(rest.skip(e.3 as int), Some(e.1), true);
                        assert(spec_list_read(rest, rs0, rd0) == after(seq![ev], tail));
                        match tail {
                            Ok(l) => {
                                assert(seen + (seq![ev] + l) =~= seen.push(ev) + l);
                            },
                            Err(_) => {},
                        }
                        seen = seen.push(ev);
                    }
                },
                Err(e) => {
                    if e.kind() == ErrorKind::UnexpectedEof {
                        proof {
                            assert(spec_list_read(rest, rs0, rd0) == Ok::<Seq<EventView>, ErrorKind>(
                                Seq::empty(),
                            ));
                            assert(seen + Seq::<EventView>::empty() =~= seen);
                        }
                        break;
                    } else {
                        return Err(e);
                    }
                },
            }
        }
        Ok(MidiCommandListBody { commands })
    }

    /// Appends the commands in order, the first with its delta time only when
    /// `z_flag` holds, each under the status of the one before; returns the
    /// number of bytes appended.
    pub fn write<W: ByteSink>(&self, writer: &mut W, z_flag: bool) -> (r: Result<usize, Error>)
        requires
            old(writer).sink_room() >= self.spec_list_bytes(z_flag).len() + 8,
            self.spec_list_bytes(z_flag).len() + 8 <= usize::MAX,
        ensures
            r matches Ok(n) && n == self.spec_list_bytes(z_flag).len(),
            final(writer).sink_contents() == old(writer).sink_contents() + self.spec_list_bytes(z_flag),
            final(writer).sink_room() == old(writer).sink_room() - self.spec_list_bytes(z_flag).len(),
    {
        let ghost cmds = events_of(self.commands@);
        let ghost start = writer.sink_contents();
        let mut offset: usize = 0;
        let mut running_status: Option<u8> = None;
        let mut i: usize = 0;
        proof {
            assert(cmds.take(0) =~= Seq::<Event>::empty());
            lemma_event_list_prefix_len(cmds, z_flag, 0);
        }
        while i < self.commands.len()
            invariant
                cmds == events_of(self.commands@),
                i <= cmds.len(),
                running_status == running_status_before(cmds, i as int),
                offset == event_list_bytes(cmds.take(i as int), z_flag).len(),
                i > 0 ==> offset > 0,
                writer.sink_contents() == start + event_list_bytes(cmds.take(i as int), z_flag),
                writer.sink_room() == old(writer).sink_room() - offset,
                start == old(writer).sink_contents(),
                old(writer).sink_room() >= event_list_bytes(cmds, z_flag).len() + 8,
                event_list_bytes(cmds, z_flag).len() + 8 <= usize::MAX,
            decreases cmds.len() - i,
        {
            let command = &self.commands[i];
            let write_delta_time = if offset == 0 {
                z_flag
            } else {
                true
            };
            proof {
                lemma_as_event(*command);
                lemma_event_list_push(cmds, z_flag, i as int);
                lemma_event_list_prefix_len(cmds, z_flag, i + 1);
                lemma_write_bytes_cover_payload(cmds[i as int], running_status, i > 0 || z_flag);
                assert(write_delta_time == (i > 0 || z_flag));
            }
            let bytes_written = match command.write(writer, running_status, write_delta_time) {
                Ok(n) => n,
                Err(e) => return Err(e),
            };
            running_status = Some(command.command().status());
            offset += bytes_written;
            i = i + 1;
            proof {
                assert(writer.sink_contents() =~= start + event_list_bytes(cmds.take(i as int), z_flag));
            }
        }
        assert(cmds.take(i as int) =~= cmds);
        Ok(offset)
    }
}

/// One step of reading a list: a timed command that reads within bounds, then
/// the rest of the list under its status.
proof fn lemma_list_read_step(bytes: Seq<u8>, rs: Option<u8>, rd: bool, d: Option<nat>, s: u8, p: Seq<u8>, n: nat)
    requires
        timed_read_in_bounds(bytes, rs, rd),
        spec_timed_read(bytes, rs, rd) == Ok::<(Option<nat>, u8, Seq<u8>, nat), ErrorKind>((d, s, p, n)),
        0 < n <= bytes.len(),
    ensures
        list_read_in_bounds(bytes, rs, rd) == list_read_in_bounds(bytes.skip(n as int), Some(s), true),
        spec_list_read(bytes, rs, rd) == after(seq![(d, s, p)], spec_list_read(bytes.skip(n as int), Some(s), true)),
{
    reveal_with_fuel(spec_list_read, 1);
    reveal_with_fuel(list_read_in_bounds, 1);
}

/// A list whose first read fails ends there: with no commands when the bytes
/// ran out, else with the failure; and only that read needs to be in bounds.
proof fn lemma_list_read_fail(bytes: Seq<u8>, rs: Option<u8>, rd: bool)
    requires
        spec_timed_read(bytes, rs, rd) is Err,
    ensures
        list_read_in_bounds(bytes, rs, rd) == timed_read_in_bounds(bytes, rs, rd),
        spec_list_read(bytes, rs, rd) == if spec_timed_read(bytes, rs, rd)->Err_0 == ErrorKind::UnexpectedEof {
            Ok::<Seq<EventView>, ErrorKind>(Seq::empty())
        } else {
            Err(spec_timed_read(bytes, rs, rd)->Err_0)
        },
{
    reveal_with_fuel(spec_list_read, 1);
    reveal_with_fuel(list_read_in_bounds, 1);
}

/// Reading a list within bounds keeps its first read within bounds.
proof fn lemma_list_read_first_in_bounds(bytes: Seq<u8>, rs: Option<u8>, rd: bool)
    requires
        list_read_in_bounds(bytes, rs, rd),
    ensures
        timed_read_in_bounds(bytes, rs, rd),
{
    reveal_with_fuel(list_read_in_bounds, 1);
}

/// What follows a list may end it: reading from it under the status of the
/// list's last command gives no command and stays within bounds.
pub open spec fn ends_list(tail: Seq<u8>, running_status: Option<u8>, read_delta_time: bool) -> bool {
    &&& list_read_in_bounds(tail, running_status, read_delta_time)
    &&& spec_list_read(tail, running_status, read_delta_time) == Ok::<Seq<EventView>, ErrorKind>(Seq::empty())
}

/// Nothing, or a single zero byte after a delta time is due, ends a list.
pub proof fn lemma_ends_list(running_status: Option<u8>, read_delta_time: bool)
    ensures
        ends_list(Seq::empty(), running_status, read_delta_time),
        read_delta_time ==> ends_list(seq![0u8], running_status, true),
{
    lemma_list_read_fail(Seq::empty(), running_status, read_delta_time);
    let z = seq![0u8];
    lemma_terminator_index(z, 0);
    assert(z.take(1) =~= z);
    assert(z.skip(1) =~= Seq::<u8>::empty());
    lemma_list_read_fail(z, running_status, true);
}

/// The `i`-th command of a list that reads back, and its bytes.
proof fn lemma_suffix_at(cmds: Seq<TimedCommand>, z_flag: bool, i: int, tail: Seq<u8>)
    requires
        0 <= i < cmds.len(),
        stream_reads_back(events_of(cmds)),
    ensures
        ({
            let e = events_of(cmds);
            let t = cmds[i];
            let c = t.spec_command();
            let rs = running_status_before(e, i);
            &&& c.wf()
            &&& !(c is SysEx)
            &&& rs == Some(c.spec_status()) ==> c.spec_payload()[0] < 0x80
            &&& running_status_before(e, i + 1) == Some(c.spec_status())
            &&& event_list_suffix(e, i, z_flag) + tail == t.spec_write_bytes(rs, i > 0 || z_flag) + (
            event_list_suffix(e, i + 1, z_flag) + tail)
            &&& t.spec_write_bytes(rs, i > 0 || z_flag).len() >= 1
        }),
{
    let e = events_of(cmds);
    let t = cmds[i];
    lemma_as_event(t);
    assert(e[i] == t.as_event());
    let c = t.spec_command();
    let rs = running_status_before(e, i);
    assert(e[i].spec_command() == c);
    assert(event_list_suffix(e, i, z_flag) == t.spec_write_bytes(rs, i > 0 || z_flag) + event_list_suffix(e, i + 1, z_flag));
    assert(event_list_suffix(e, i, z_flag) + tail =~= t.spec_write_bytes(rs, i > 0 || z_flag) + (
    event_list_suffix(e, i + 1, z_flag) + tail));
    assert(c.spec_payload().len() >= 1);
}

/// Reading the bytes of the commands of a list from the `i`-th on, followed by
/// bytes that end the list, gives those commands back.
#[verifier::spinoff_prover]
proof fn lemma_read_suffix(cmds: Seq<TimedCommand>, z_flag: bool, i: int, tail: Seq<u8>)
    requires
        0 <= i <= cmds.len(),
        stream_reads_back(events_of(cmds)),
        ends_list(tail, running_status_before(events_of(cmds), cmds.len() as int), cmds.len() > 0 || z_flag),
    ensures
        ({
            let e = events_of(cmds);
            let bytes = event_list_suffix(e, i, z_flag) + tail;
            let rs = running_status_before(e, i);
            let rd = i > 0 || z_flag;
            &&& list_read_in_bounds(bytes, rs, rd)
            &&& spec_list_read(bytes, rs, rd) == Ok::<Seq<EventView>, ErrorKind>(
                Seq::new((cmds.len() - i) as nat, |j: int| written_event(e, i + j, z_flag)),
            )
        }),
    decreases cmds.len() - i,
{
    let e = events_of(cmds);
    if i == cmds.len() {
        assert(event_list_suffix(e, i, z_flag) == Seq::<u8>::empty());
        assert(event_list_suffix(e, i, z_flag) + tail =~= tail);
        assert(Seq::new((cmds.len() - i) as nat, |j: int| written_event(e, i + j, z_flag)) =~= Seq::<
            EventView,
        >::empty());
    } else {
        let t = cmds[i];
        let c = t.spec_command();
        let rs = running_status_before(e, i);
        let wd = i > 0 || z_flag;
        let rest = event_list_suffix(e, i + 1, z_flag) + tail;
        let bytes = event_list_suffix(e, i, z_flag) + tail;
        lemma_suffix_at(cmds, z_flag, i, tail);
        lemma_read_suffix(cmds, z_flag, i + 1, tail);
        lemma_timed_write_then_read(t, rs, wd, rest);
        let n = t.spec_write_bytes(rs, wd).len();
        assert(bytes.skip(n as int) =~= rest);
        let w = written_event(e, i, z_flag);
        assert(w == (if wd {
            Some((match t.spec_delta_time() {
                Some(d) => d,
                None => 0u32,
            }) as nat)
        } else {
            None
        }, c.spec_status(), c.spec_payload())) by {
            lemma_as_event(t);
            assert(e[i] == t.as_event());
        }
        lemma_list_read_step(bytes, rs, wd, w.0, w.1, w.2, n);
        assert(Seq::new((cmds.len() - i) as nat, |j: int| written_event(e, i + j, z_flag)) =~= seq![
            written_event(e, i, z_flag),
        ] + Seq::new((cmds.len() - (i + 1)) as nat, |j: int| written_event(e, i + 1 + j, z_flag)));
    }
}

/// A list written by `write` is read back by `read` as written: each command
/// with its delta time (zero when it had none) when one was written, its status
/// and its data bytes, under the conditions of `stream_reads_back`, whether the
/// stream ends right after it or goes on with bytes that end the list.
pub proof fn lemma_write_then_read(cmds: Seq<TimedCommand>, z_flag: bool, tail: Seq<u8>)
    requires
        stream_reads_back(events_of(cmds)),
        ends_list(tail, running_status_before(events_of(cmds), cmds.len() as int), cmds.len() > 0 || z_flag),
    ensures
        list_read_in_bounds(event_list_bytes(events_of(cmds), z_flag) + tail, None, z_flag),
        spec_list_read(event_list_bytes(events_of(cmds), z_flag) + tail, None, z_flag) == Ok::<
            Seq<EventView>,
            ErrorKind,
        >(Seq::new(cmds.len(), |j: int| written_event(events_of(cmds), j, z_flag))),
{
    let e = events_of(cmds);
    lemma_event_list_as_suffix(e, z_flag);
    lemma_read_suffix(cmds, z_flag, 0, tail);
    assert(Seq::new((cmds.len() - 0) as nat, |j: int| written_event(e, 0 + j, z_flag)) =~= Seq::new(
        cmds.len(),
        |j: int| written_event(e, j, z_flag),
    ));
}

} // verus!
