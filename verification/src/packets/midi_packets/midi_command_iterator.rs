//! Walking the timed commands of a MIDI command list, one at a time.
use super::delta_time::spec_read_delta_time;
use super::midi_command::{spec_from_be_bytes, sysex_end};
use super::midi_command_list_header::MidiCommandListHeader;
use super::midi_command_list_body::{event_list_bytes, event_list_suffix, lemma_event_list_as_suffix, running_status_before};
use super::midi_timed_command::{spec_timed_from_be_bytes, timed_in_bounds, TimedCommand};
use crate::packet::midi_packet::delta_time::lemma_byte_length_well_terminated;
use vstd::prelude::*;

verus! {

/// A command as read: its delta time if one was read, its status byte, and the
/// bytes after the status that make it.
pub type EventView = (Option<nat>, u8, Seq<u8>);

/// `tc` is what was read as `e`.
pub open spec fn event_matches(tc: TimedCommand, e: EventView) -> bool {
    &&& match e.0 {
        Some(d) => tc.spec_delta_time() == Some(d as u32),
        None => tc.spec_delta_time() is None,
    }
    &&& tc.spec_command().is_read_as(e.1, e.2)
}

/// The commands that iterating over `data` yields: one after another, the first
/// with a delta time only if `read_delta_time` holds, each under the status of
/// the one before, until the bytes run out or a command fails to read.
pub open spec fn spec_iter_events(data: Seq<u8>, read_delta_time: bool, running_status: Option<u8>) -> Seq<EventView>
    decreases data.len(),
{
    if data.len() == 0 {
        Seq::empty()
    } else {
        match spec_timed_from_be_bytes(data, read_delta_time, running_status) {
            Ok((t, s, p, rest)) => if rest.len() < data.len() {
                seq![(t, s, p)] + spec_iter_events(rest, true, Some(s))
            } else {
                seq![(t, s, p)]
            },
            Err(_) => Seq::empty(),
        }
    }
}

/// Iterating over `data` stays within it at every step.
pub open spec fn iter_in_bounds(data: Seq<u8>, read_delta_time: bool, running_status: Option<u8>) -> bool
    decreases data.len(),
{
    if data.len() == 0 {
        true
    } else {
        &&& timed_in_bounds(data, read_delta_time, running_status)
        &&& match spec_timed_from_be_bytes(data, read_delta_time, running_status) {
            Ok((t, s, p, rest)) => rest.len() < data.len() ==> iter_in_bounds(rest, true, Some(s)),
            Err(_) => true,
        }
    }
}

/// The command list of a packet: the bytes after the header that the header's
/// length covers, the running status, and whether the next command has a delta
/// time.
#[derive(Debug)]
pub struct MidiCommandIterator<'a> {
    data: &'a [u8],
    running_status: Option<u8>,
    read_delta_time: bool,
}

impl<'a> MidiCommandIterator<'a> {
    pub closed spec fn spec_data(&self) -> Seq<u8> {
        self.data@
    }

    pub closed spec fn spec_running_status(&self) -> Option<u8> {
        self.running_status
    }

    pub closed spec fn spec_read_delta_time(&self) -> bool {
        self.read_delta_time
    }

    /// The commands still to come.
    pub open spec fn remaining(&self) -> Seq<EventView> {
        spec_iter_events(self.spec_data(), self.spec_read_delta_time(), self.spec_running_status())
    }

    pub open spec fn wf(&self) -> bool {
        iter_in_bounds(self.spec_data(), self.spec_read_delta_time(), self.spec_running_status())
    }

    /// Reads the list header at the front of `data` and iterates over the
    /// command list it covers, the first command with a delta time only when Z
    /// is set.
    pub fn new(data: &'a [u8]) -> (it: Self)
        requires
            data@.len() >= 1,
            data@[0] & 0x80 != 0 ==> data@.len() >= 2,
            ({
                let size: int = if data@[0] & 0x80 != 0 { 2 } else { 1 };
                let length: int = if data@[0] & 0x80 != 0 {
                    (data@[0] % 0x10) * 0x100 + data@[1]
                } else {
                    (data@[0] % 0x10) as int
                };
                size + length <= data@.len()
            }),
        ensures
            ({
                let size: int = if data@[0] & 0x80 != 0 { 2 } else { 1 };
                let length: int = if data@[0] & 0x80 != 0 {
                    (data@[0] % 0x10) * 0x100 + data@[1]
                } else {
                    (data@[0] % 0x10) as int
                };
                &&& it.spec_data() == data@.subrange(size, size + length)
                &&& it.spec_running_status() is None
                &&& it.spec_read_delta_time() == (data@[0] & 0x20 != 0)
            }),
    {
        let command_list_header = MidiCommandListHeader::from_slice(data);
        let read_delta_time = command_list_header.flags().z_flag();
        let offset = command_list_header.size();
        let length = command_list_header.length();
        let b = data[0];
        assert((b & 0xF0) & 0x80 == b & 0x80 && (b & 0xF0) & 0x20 == b & 0x20) by (bit_vector);
        let slice = &data[offset..length + offset];
        MidiCommandIterator { data: slice, running_status: None, read_delta_time }
    }

    /// The next command, or `None` when the bytes have run out or the next
    /// command fails to read.
    pub fn next(&mut self) -> (r: Option<TimedCommand>)
        requires
            old(self).wf(),
        ensures
            final(self).wf(),
            match r {
                Some(tc) => {
                    &&& old(self).remaining().len() > 0
                    &&& event_matches(tc, old(self).remaining()[0])
                    &&& final(self).remaining() == old(self).remaining().drop_first()
                },
                None => old(self).remaining().len() == 0,
            },
    {
        if self.data.len() > 0 {
            proof {
                lemma_timed_consumes(self.data@, self.read_delta_time, self.running_status);
            }
            match TimedCommand::from_be_bytes(self.data, self.read_delta_time, self.running_status) {
                Ok((event, new_offset)) => {
                    let ghost before = self.remaining();
                    self.running_status = Some(event.command().status());
                    self.data = new_offset;
                    self.read_delta_time = true;
                    assert(before.drop_first() =~= self.remaining());
                    Some(event)
                },
                Err(_) => None,
            }
        } else {
            None
        }
    }
}

/// Reading a timed command within bounds uses at least one byte and no more
/// than there are.
pub proof fn lemma_timed_consumes(bytes: Seq<u8>, read_delta_time: bool, running_status: Option<u8>)
    requires
        timed_in_bounds(bytes, read_delta_time, running_status),
    ensures
        spec_timed_from_be_bytes(bytes, read_delta_time, running_status) matches Ok((t, s, p, rest))
            ==> rest.len() < bytes.len(),
{
    let cmd_bytes = if read_delta_time {
        match spec_read_delta_time(bytes) {
            Ok((t, rest)) => rest,
            Err(_) => bytes,
        }
    } else {
        bytes
    };
    if read_delta_time {
        lemma_byte_length_well_terminated(bytes);
    }
    if let Ok((s, p, n)) = spec_from_be_bytes(cmd_bytes, running_status) {
        if cmd_bytes[0] == 0xF0 {
            lemma_sysex_end_bound(cmd_bytes);
        }
    }
}

/// The first 0xF7, when there is one, is within the bytes.
pub proof fn lemma_sysex_end_bound(s: Seq<u8>)
    ensures
        sysex_end(s) matches Some(e) ==> e < s.len(),
    decreases s.len(),
{
    if s.len() > 0 && s[0] != 0xF7 {
        lemma_sysex_end_bound(s.drop_first());
    }
}

/// The conditions under which a list of timed commands reads back as written:
/// every command a channel voice message with its channel below 16, every
/// command whose status repeats the one before with its first data byte below
/// 0x80, and every delta time that is written within 28 bits.
pub open spec fn list_reads_back(cmds: Seq<TimedCommand>, z_flag: bool) -> bool {
    forall|i: int|
        0 <= i < cmds.len() ==> {
            let c = #[trigger] cmds[i].spec_command();
            &&& c.wf()
            &&& !(c is SysEx)
            &&& running_status_before(cmds, i) == Some(c.spec_status()) ==> c.spec_payload()[0] < 0x80
            &&& (i > 0 || z_flag) ==> (cmds[i].spec_delta_time() matches Some(d) ==> d <= 0x0fff_ffff)
        }
}

/// What reading back the `i`-th command of a list gives: its delta time (zero
/// when it had none) when one was written, its status and its data bytes.
pub open spec fn written_event(cmds: Seq<TimedCommand>, i: int, z_flag: bool) -> EventView {
    let t = cmds[i];
    (
        if i > 0 || z_flag {
            Some(
                match t.spec_delta_time() {
                    Some(d) => d as nat,
                    None => 0nat,
                },
            )
        } else {
            None
        },
        t.spec_command().spec_status(),
        t.spec_command().spec_payload(),
    )
}

/// Iterating over the bytes of the commands of a list from the `i`-th on gives
/// those commands back.
pub proof fn lemma_iter_suffix(cmds: Seq<TimedCommand>, z_flag: bool, i: int)
    requires
        0 <= i <= cmds.len(),
        list_reads_back(cmds, z_flag),
    ensures
        iter_in_bounds(event_list_suffix(cmds, i, z_flag), i > 0 || z_flag, running_status_before(cmds, i)),
        spec_iter_events(event_list_suffix(cmds, i, z_flag), i > 0 || z_flag, running_status_before(cmds, i))
            == Seq::new((cmds.len() - i) as nat, |j: int| written_event(cmds, i + j, z_flag)),
    decreases cmds.len() - i,
{
    if i == cmds.len() {
        assert(Seq::new((cmds.len() - i) as nat, |j: int| written_event(cmds, i + j, z_flag)) =~= Seq::<EventView>::empty());
    } else {
        let t = cmds[i];
        let c = t.spec_command();
        let rs = running_status_before(cmds, i);
        let wd = i > 0 || z_flag;
        let rest = event_list_suffix(cmds, i + 1, z_flag);
        let bytes = event_list_suffix(cmds, i, z_flag);
        assert(bytes == t.spec_write_bytes(rs, wd) + rest);
        assert(list_reads_back(cmds, z_flag));
        let ci = cmds[i].spec_command();
        assert(ci.wf() && !(ci is SysEx));
        lemma_iter_suffix(cmds, z_flag, i + 1);
        super::midi_timed_command::lemma_write_then_read(t, rs, wd, rest);
        assert(t.spec_write_bytes(rs, wd).len() > 0) by {
            assert(c.spec_write_bytes(rs).len() >= c.spec_payload().len());
        }
        assert(running_status_before(cmds, i + 1) == Some(c.spec_status()));
        assert(Seq::new((cmds.len() - i) as nat, |j: int| written_event(cmds, i + j, z_flag)) =~= seq![
            written_event(cmds, i, z_flag),
        ] + Seq::new((cmds.len() - (i + 1)) as nat, |j: int| written_event(cmds, i + 1 + j, z_flag)));
    }
}

/// Iterating over the bytes of a list gives its commands back, under the
/// conditions of `list_reads_back`.
pub proof fn lemma_write_then_iterate(cmds: Seq<TimedCommand>, z_flag: bool)
    requires
        list_reads_back(cmds, z_flag),
    ensures
        iter_in_bounds(event_list_bytes(cmds, z_flag), z_flag, None),
        spec_iter_events(event_list_bytes(cmds, z_flag), z_flag, None) == Seq::new(
            cmds.len(),
            |j: int| written_event(cmds, j, z_flag),
        ),
{
    lemma_event_list_as_suffix(cmds, z_flag);
    lemma_iter_suffix(cmds, z_flag, 0);
    assert(Seq::new((cmds.len() - 0) as nat, |j: int| written_event(cmds, 0 + j, z_flag)) =~= Seq::new(
        cmds.len(),
        |j: int| written_event(cmds, j, z_flag),
    ));
}

} // verus!
