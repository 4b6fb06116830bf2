//! The body of a MIDI command list: timed commands one after another, each
//! command's status byte left out when it repeats the one before.
use super::delta_time::delta_time_size;
use super::midi_command::MidiCommand;
use super::midi_timed_command::TimedCommand;
use crate::stream::ByteSink;
use bytes::BytesMut;
use vstd::prelude::*;

verus! {

/// The running status in force before the `i`-th command of a list: none for
/// the first, else the status of the command before it.
pub open spec fn running_status_before(cmds: Seq<TimedCommand>, i: int) -> Option<u8> {
    if i <= 0 {
        None
    } else {
        Some(cmds[i - 1].spec_command().spec_status())
    }
}

/// The bytes of a list of timed commands: each with its delta time unless it is
/// the first and `z_flag` is clear, and with its status byte unless it repeats
/// the status before it.
pub open spec fn event_list_bytes(cmds: Seq<TimedCommand>, z_flag: bool) -> Seq<u8>
    decreases cmds.len(),
{
    if cmds.len() == 0 {
        Seq::empty()
    } else {
        event_list_bytes(cmds.drop_last(), z_flag) + cmds.last().spec_write_bytes(
            running_status_before(cmds, cmds.len() - 1),
            cmds.len() > 1 || z_flag,
        )
    }
}

/// Writing and measuring a list of timed commands.
pub trait MidiEventList {
    /// The bytes that `write` appends.
    spec fn spec_list_bytes(&self, z_flag: bool) -> Seq<u8>;

    /// Appends the commands in order, each under the status of the one before.
    fn write(&self, buffer: &mut BytesMut, z_flag: bool)
        requires
            old(buffer).sink_room() >= self.spec_list_bytes(z_flag).len() + 8,
            self.spec_list_bytes(z_flag).len() + 8 <= usize::MAX,
        ensures
            final(buffer).sink_contents() == old(buffer).sink_contents() + self.spec_list_bytes(z_flag),
    ;

    /// The number of bytes that `write` appends.
    fn size(&self, z_flag: bool) -> (n: usize)
        requires
            self.spec_list_bytes(z_flag).len() <= usize::MAX,
        ensures
            n == self.spec_list_bytes(z_flag).len(),
    ;
}

impl MidiEventList for [TimedCommand] {
    open spec fn spec_list_bytes(&self, z_flag: bool) -> Seq<u8> {
        event_list_bytes(self@, z_flag)
    }

    fn write(&self, buffer: &mut BytesMut, z_flag: bool) {
        let mut write_delta_time = z_flag;
        let mut running_status: Option<u8> = None;
        let ghost cmds = self@;
        let ghost start = buffer.sink_contents();
        let mut i: usize = 0;
        proof {
            assert(cmds.take(0) =~= Seq::<TimedCommand>::empty());
            lemma_event_list_prefix_len(cmds, z_flag, 0);
        }
        while i < self.len()
            invariant
                cmds == self@,
                i <= cmds.len(),
                write_delta_time == (i > 0 || z_flag),
                running_status == running_status_before(cmds, i as int),
                buffer.sink_contents() == start + event_list_bytes(cmds.take(i as int), z_flag),
                old(buffer).sink_room() >= event_list_bytes(cmds, z_flag).len() + 8,
                buffer.sink_room() == old(buffer).sink_room() - event_list_bytes(cmds.take(i as int), z_flag).len(),
                start == old(buffer).sink_contents(),
                event_list_bytes(cmds, z_flag).len() + 8 <= usize::MAX,
            decreases cmds.len() - i,
        {
            let command = &self[i];
            proof {
                lemma_event_list_push(cmds, z_flag, i as int);
                lemma_event_list_prefix_len(cmds, z_flag, i + 1);
                lemma_write_bytes_cover_payload(cmds[i as int], running_status, write_delta_time);
            }
            command.write(buffer, running_status, write_delta_time);
            running_status = Some(command.command().status());
            write_delta_time = true;
            i = i + 1;
            proof {
                assert(buffer.sink_contents() =~= start + event_list_bytes(cmds.take(i as int), z_flag));
            }
        }
        assert(cmds.take(i as int) =~= cmds);
    }

    fn size(&self, z_flag: bool) -> (n: usize) {
        let mut length: usize = 0;
        let mut running_status: Option<u8> = None;
        let ghost cmds = self@;
        let mut i: usize = 0;
        proof {
            assert(cmds.take(0) =~= Seq::<TimedCommand>::empty());
            lemma_event_list_prefix_len(cmds, z_flag, 0);
        }
        while i < self.len()
            invariant
                cmds == self@,
                i <= cmds.len(),
                running_status == running_status_before(cmds, i as int),
                length == event_list_bytes(cmds.take(i as int), z_flag).len(),
                event_list_bytes(cmds, z_flag).len() <= usize::MAX,
            decreases cmds.len() - i,
        {
            let command = &self[i];
            proof {
                lemma_event_list_push(cmds, z_flag, i as int);
                lemma_event_list_prefix_len(cmds, z_flag, i + 1);
                lemma_write_bytes_cover_payload(cmds[i as int], running_status, i > 0 || z_flag);
            }
            if i > 0 || z_flag {
                length += delta_time_size(command.delta_time());
            }
            let status = command.command().status();
            let differs = match command.command() {
                MidiCommand::SysEx { .. } => false,
                _ => match running_status {
                    Some(rs) => rs != status,
                    None => true,
                },
            };
            if differs {
                length += command.command().size() + 1;
            } else {
                length += command.command().size();
            }
            running_status = Some(status);
            i = i + 1;
        }
        assert(cmds.take(i as int) =~= cmds);
        length
    }
}

/// The bytes of one timed command hold its payload, and two bytes more for
/// System Exclusive.
pub proof fn lemma_write_bytes_cover_payload(t: TimedCommand, running_status: Option<u8>, with_delta_time: bool)
    ensures
        t.spec_command().spec_payload().len() + (if t.spec_command() is SysEx {
            2nat
        } else {
            0nat
        }) <= t.spec_write_bytes(running_status, with_delta_time).len(),
{
}

/// Appending a command to a list appends its bytes under the status before it.
pub proof fn lemma_event_list_push(cmds: Seq<TimedCommand>, z_flag: bool, i: int)
    requires
        0 <= i < cmds.len(),
    ensures
        event_list_bytes(cmds.take(i + 1), z_flag) == event_list_bytes(cmds.take(i), z_flag)
            + cmds[i].spec_write_bytes(running_status_before(cmds, i), i > 0 || z_flag),
{
    let t = cmds.take(i + 1);
    assert(t.drop_last() =~= cmds.take(i));
    assert(t.last() == cmds[i]);
    if i > 0 {
        assert(t[i - 1] == cmds[i - 1]);
    }
}

/// The bytes of a prefix of a list are a prefix of the bytes of the list.
pub proof fn lemma_event_list_prefix_len(cmds: Seq<TimedCommand>, z_flag: bool, i: int)
    requires
        0 <= i <= cmds.len(),
    ensures
        event_list_bytes(cmds.take(i), z_flag).len() <= event_list_bytes(cmds, z_flag).len(),
    decreases cmds.len() - i,
{
    if i < cmds.len() {
        lemma_event_list_push(cmds, z_flag, i);
        lemma_event_list_prefix_len(cmds, z_flag, i + 1);
    } else {
        assert(cmds.take(i) =~= cmds);
    }
}

/// The bytes of the commands of a list from the `i`-th on, each under the
/// status of the one before it in the whole list.
pub open spec fn event_list_suffix(cmds: Seq<TimedCommand>, i: int, z_flag: bool) -> Seq<u8>
    decreases cmds.len() - i,
{
    if i < 0 || i >= cmds.len() {
        Seq::empty()
    } else {
        cmds[i].spec_write_bytes(running_status_before(cmds, i), i > 0 || z_flag) + event_list_suffix(
            cmds,
            i + 1,
            z_flag,
        )
    }
}

/// The bytes of a list are those of its first `k` commands, then those of the rest.
pub proof fn lemma_event_list_split(cmds: Seq<TimedCommand>, z_flag: bool, k: int)
    requires
        0 <= k <= cmds.len(),
    ensures
        event_list_bytes(cmds, z_flag) == event_list_bytes(cmds.take(k), z_flag) + event_list_suffix(
            cmds,
            k,
            z_flag,
        ),
    decreases cmds.len() - k,
{
    if k == cmds.len() {
        assert(cmds.take(k) =~= cmds);
        assert(event_list_bytes(cmds.take(k), z_flag) + Seq::<u8>::empty() =~= event_list_bytes(cmds.take(k), z_flag));
    } else {
        lemma_event_list_split(cmds, z_flag, k + 1);
        lemma_event_list_push(cmds, z_flag, k);
        assert(event_list_bytes(cmds.take(k), z_flag) + event_list_suffix(cmds, k, z_flag) =~= (
        event_list_bytes(cmds.take(k), z_flag) + cmds[k].spec_write_bytes(running_status_before(cmds, k), k > 0 || z_flag))
            + event_list_suffix(cmds, k + 1, z_flag));
    }
}

/// The bytes of a list, read from the front: each command's bytes, then the rest.
pub proof fn lemma_event_list_as_suffix(cmds: Seq<TimedCommand>, z_flag: bool)
    ensures
        event_list_bytes(cmds, z_flag) == event_list_suffix(cmds, 0, z_flag),
{
    lemma_event_list_split(cmds, z_flag, 0);
    assert(cmds.take(0) =~= Seq::<TimedCommand>::empty());
    assert(Seq::<u8>::empty() + event_list_suffix(cmds, 0, z_flag) =~= event_list_suffix(cmds, 0, z_flag));
}

} // verus!
