//! The recovery journal of a MIDI packet, read bit by bit: its header, the
//! optional system journal, and one channel journal per channel.
use super::program_change_chapter::{next_bit, next_bits_u32, next_bits_u8, spec_program_change, ProgramChangeChapter};
use crate::bits::{bit_cursor, bits_of, bits_value, unread_bits, BitCursor};
use crate::io::{Error, ErrorKind};
use crate::packet::midi_packets::recovery_journal::channel_journal::control_change_chapter::{
    spec_control_change, ControlChangeChapter, ControlChangeEntry,
};
use std::collections::HashMap;
use vstd::prelude::*;

verus! {

broadcast use vstd::std_specs::hash::group_hash_axioms;

#[derive(Debug)]
pub struct RecoveryJournal {
    pub s_flag: bool,
    pub a_flag: bool,
    pub h_flag: bool,
    pub total_channels: u8,
    pub checkpoint_sequence_number: u32,
    pub system_journal: Option<SystemJournal>,
    /// The channel journals by channel; a later journal for a channel replaces
    /// an earlier one.
    pub channel_journals: HashMap<u8, ChannelJournal>,
}

#[derive(Debug)]
pub struct SystemJournal {
    pub s_flag: bool,
    pub d_flag: bool,
    pub v_flag: bool,
    pub q_flag: bool,
    pub f_flag: bool,
    pub x_flag: bool,
    pub system_chapters: Vec<u8>,
}

#[derive(Debug, Clone, Copy, Hash, PartialEq, Eq, Structural)]
pub enum ChannelJournalType {
    ProgramChange,
    ControlChange,
    ParameterSystem,
    PitchWheel,
    NoteOffOn,
    NoteCommandExtras,
    ChannelAftertouch,
    PolyAftertouch,
}

/// A channel journal; `chapters` holds at most one chapter of each type, in
/// the order of the table of contents.
#[derive(Debug)]
pub struct ChannelJournal {
    pub s_flag: bool,
    pub channel: u8,
    pub h_flag: bool,
    pub chapters: Vec<ChannelJournalChapter>,
}

#[derive(Debug)]
pub enum ChannelJournalChapter {
    ProgramChange(ProgramChangeChapter),
    ControlChange(ControlChangeChapter),
    ParameterSystem,
    PitchWheel,
    NoteOffOn,
    NoteCommandExtras,
    ChannelAftertouch,
    PolyAftertouch,
}

/// A system journal as read: S, D, V, Q, F and X, and the chapter bytes.
pub type SystemJournalView = (bool, bool, bool, bool, bool, bool, Seq<u8>);

/// A channel journal as read: S, the channel, H, chapter P if present and the
/// entries of chapter C if present.
pub type ChannelJournalView = (bool, u8, bool, Option<ProgramChangeChapter>, Option<Seq<ControlChangeEntry>>);

/// A recovery journal as read: S, A, H, the channel count, the checkpoint
/// sequence number, the system journal if present, and the channel journals in order.
pub type RecoveryJournalView = (bool, bool, bool, u8, u32, Option<SystemJournalView>, Seq<ChannelJournalView>);

/// `n` bytes of eight bits each.
pub open spec fn spec_bytes(bits: Seq<bool>, n: nat) -> Option<(Seq<u8>, Seq<bool>)>
    decreases n,
{
    if n == 0 {
        Some((Seq::empty(), bits))
    } else if bits.len() < 8 {
        None
    } else {
        match spec_bytes(bits.skip(8), (n - 1) as nat) {
            Some((bs, rest)) => Some((seq![bits_value(bits.take(8)) as u8] + bs, rest)),
            None => None,
        }
    }
}

/// The system journal at the front of `bits`: six flags, eight bits of length,
/// then that many chapter bytes.
pub open spec fn spec_system_journal(bits: Seq<bool>) -> Option<(SystemJournalView, Seq<bool>)> {
    if bits.len() < 14 {
        None
    } else {
        match spec_bytes(bits.skip(14), bits_value(bits.subrange(6, 14))) {
            Some((cs, rest)) => Some(((bits[0], bits[1], bits[2], bits[3], bits[4], bits[5], cs), rest)),
            None => None,
        }
    }
}

/// The channel journal at the front of `bits`: S, four bits of channel, H, ten
/// bits of length (not used), eight table-of-contents bits, then chapter P when
/// the first of them is set and chapter C when the second is.
pub open spec fn spec_channel_journal(bits: Seq<bool>) -> Option<(ChannelJournalView, Seq<bool>)> {
    if bits.len() < 24 {
        None
    } else {
        let after_toc = bits.skip(24);
        let pc = if bits[16] {
            match spec_program_change(after_toc) {
                Some((p, r)) => Some((Some(p), r)),
                None => None,
            }
        } else {
            Some((None, after_toc))
        };
        match pc {
            None => None,
            Some((p, r1)) => {
                let cc = if bits[17] {
                    match spec_control_change(r1) {
                        Some((es, r)) => Some((Some(es), r)),
                        None => None,
                    }
                } else {
                    Some((None, r1))
                };
                match cc {
                    None => None,
                    Some((c, r2)) => Some(
                        ((bits[0], bits_value(bits.subrange(1, 5)) as u8, bits[5], p, c), r2),
                    ),
                }
            },
        }
    }
}

/// `n` channel journals one after another.
pub open spec fn spec_channel_journals(bits: Seq<bool>, n: nat) -> Option<(Seq<ChannelJournalView>, Seq<bool>)>
    decreases n,
{
    if n == 0 {
        Some((Seq::empty(), bits))
    } else {
        match spec_channel_journal(bits) {
            Some((j, rest)) => match spec_channel_journals(rest, (n - 1) as nat) {
                Some((js, rest2)) => Some((seq![j] + js, rest2)),
                None => None,
            },
            None => None,
        }
    }
}

/// The recovery journal at the front of `bits`: S, A, H, four bits of channel
/// count, sixteen bits of checkpoint sequence number, Y, the system journal when
/// Y is set, then the channel journals.
pub open spec fn spec_recovery_journal(bits: Seq<bool>) -> Option<(RecoveryJournalView, Seq<bool>)> {
    if bits.len() < 24 {
        None
    } else {
        let total = bits_value(bits.subrange(3, 7));
        let sj = if bits[23] {
            match spec_system_journal(bits.skip(24)) {
                Some((s, r)) => Some((Some(s), r)),
                None => None,
            }
        } else {
            Some((None, bits.skip(24)))
        };
        match sj {
            None => None,
            Some((s, r1)) => match spec_channel_journals(r1, total) {
                Some((js, r2)) => Some(
                    (
                        (bits[0], bits[1], bits[2], total as u8, bits_value(bits.subrange(7, 23)) as u32, s, js),
                        r2,
                    ),
                ),
                None => None,
            },
        }
    }
}

/// The channel journals by channel, a later one for a channel replacing an earlier.
pub open spec fn journals_by_channel(js: Seq<ChannelJournalView>) -> Map<u8, ChannelJournalView>
    decreases js.len(),
{
    if js.len() == 0 {
        Map::empty()
    } else {
        journals_by_channel(js.drop_last()).insert(js.last().1, js.last())
    }
}

/// `chs` holds chapter P as `pc` says, then chapter C as `cc` says.
pub open spec fn chapters_match(
    chs: Seq<ChannelJournalChapter>,
    pc: Option<ProgramChangeChapter>,
    cc: Option<Seq<ControlChangeEntry>>,
) -> bool {
    let np: int = if pc is Some { 1 } else { 0 };
    &&& chs.len() == np + if cc is Some { 1int } else { 0int }
    &&& pc matches Some(p) ==> chs[0] == ChannelJournalChapter::ProgramChange(p)
    &&& cc matches Some(es) ==> chs[np] matches ChannelJournalChapter::ControlChange(c) && c.entries@ == es
}

impl SystemJournal {
    pub open spec fn matches(&self, v: SystemJournalView) -> bool {
        &&& self.s_flag == v.0
        &&& self.d_flag == v.1
        &&& self.v_flag == v.2
        &&& self.q_flag == v.3
        &&& self.f_flag == v.4
        &&& self.x_flag == v.5
        &&& self.system_chapters@ == v.6
    }
}

impl ChannelJournal {
    pub open spec fn matches(&self, v: ChannelJournalView) -> bool {
        &&& self.s_flag == v.0
        &&& self.channel == v.1
        &&& self.h_flag == v.2
        &&& chapters_match(self.chapters@, v.3, v.4)
    }
}

impl RecoveryJournal {
    pub open spec fn matches(&self, v: RecoveryJournalView) -> bool {
        &&& self.s_flag == v.0
        &&& self.a_flag == v.1
        &&& self.h_flag == v.2
        &&& self.total_channels == v.3
        &&& self.checkpoint_sequence_number == v.4
        &&& match (self.system_journal, v.5) {
            (Some(s), Some(sv)) => s.matches(sv),
            (None, None) => true,
            _ => false,
        }
        &&& self.channel_journals@.dom() == journals_by_channel(v.6).dom()
        &&& forall|k: u8| #[trigger] self.channel_journals@.contains_key(k) ==> self.channel_journals@[k].matches(
            journals_by_channel(v.6)[k],
        )
    }
}

/// Reads `n` bytes of eight bits each.
fn read_chapter_bytes(reader: &mut BitCursor<'_>, n: u8) -> (r: Result<Vec<u8>, Error>)
    ensures
        match spec_bytes(unread_bits(*old(reader)), n as nat) {
            Some((bs, rest)) => r matches Ok(v) && v@ == bs && unread_bits(*final(reader)) == rest,
            None => r matches Err(e) && e.kind == ErrorKind::UnexpectedEof,
        },
{
    let mut system_chapters: Vec<u8> = Vec::new();
    let mut i: u8 = 0;
    while i < n
        invariant
            i <= n,
            spec_bytes(unread_bits(*old(reader)), n as nat) == match spec_bytes(unread_bits(*reader), (n - i) as nat) {
                Some((bs, rest)) => Some((system_chapters@ + bs, rest)),
                None => None,
            },
        decreases n - i,
    {
        let ghost before = unread_bits(*reader);
        let byte = match next_bits_u8(reader, 8) {
            Ok(b) => b,
            Err(e) => {
                assert(spec_bytes(before, (n - i) as nat) is None);
                return Err(e);
            },
        };
        proof {
            let m = (n - i) as nat;
            assert(unread_bits(*reader) == before.skip(8));
            match spec_bytes(before.skip(8), (m - 1) as nat) {
                Some((bs, rest)) => {
                    assert(system_chapters@ + (seq![byte] + bs) =~= system_chapters@.push(byte) + bs);
                },
                None => {},
            }
        }
        system_chapters.push(byte);
        i = i + 1;
    }
    assert(system_chapters@ + Seq::<u8>::empty() =~= system_chapters@);
    Ok(system_chapters)
}

/// Reads a system journal; see `spec_system_journal`.
fn read_system_journal(reader: &mut BitCursor<'_>) -> (r: Result<SystemJournal, Error>)
    ensures
        match spec_system_journal(unread_bits(*old(reader))) {
            Some((v, rest)) => r matches Ok(j) && j.matches(v) && unread_bits(*final(reader)) == rest,
            None => r matches Err(e) && e.kind == ErrorKind::UnexpectedEof,
        },
{
    let ghost b0 = unread_bits(*reader);
    let s_flag = match next_bit(reader) {
        Ok(v) => v,
        Err(e) => return Err(e),
    };
    let d_flag = match next_bit(reader) {
        Ok(v) => v,
        Err(e) => return Err(e),
    };
    assert(b0.skip(1)[0] == b0[1]);
    assert(unread_bits(*reader) =~= b0.skip(2));
    let v_flag = match next_bit(reader) {
        Ok(v) => v,
        Err(e) => return Err(e),
    };
    assert(b0.skip(2)[0] == b0[2]);
    assert(unread_bits(*reader) =~= b0.skip(3));
    let q_flag = match next_bit(reader) {
        Ok(v) => v,
        Err(e) => return Err(e),
    };
    assert(b0.skip(3)[0] == b0[3]);
    assert(unread_bits(*reader) =~= b0.skip(4));
    let f_flag = match next_bit(reader) {
        Ok(v) => v,
        Err(e) => return Err(e),
    };
    assert(b0.skip(4)[0] == b0[4]);
    assert(unread_bits(*reader) =~= b0.skip(5));
    let x_flag = match next_bit(reader) {
        Ok(v) => v,
        Err(e) => return Err(e),
    };
    assert(b0.skip(5)[0] == b0[5]);
    assert(unread_bits(*reader) =~= b0.skip(6));
    let length = match next_bits_u8(reader, 8) {
        Ok(v) => v,
        Err(e) => return Err(e),
    };
    assert(b0.skip(6).take(8) =~= b0.subrange(6, 14));
    assert(unread_bits(*reader) =~= b0.skip(14));
    let system_chapters = match read_chapter_bytes(reader, length) {
        Ok(v) => v,
        Err(e) => return Err(e),
    };
    Ok(SystemJournal { s_flag, d_flag, v_flag, q_flag, f_flag, x_flag, system_chapters })
}

/// Reads a channel journal; see `spec_channel_journal`.
#[verifier::loop_isolation(false)]
fn read_channel_journal(reader: &mut BitCursor<'_>) -> (r: Result<ChannelJournal, Error>)
    ensures
        match spec_channel_journal(unread_bits(*old(reader))) {
            Some((v, rest)) => r matches Ok(j) && j.matches(v) && unread_bits(*final(reader)) == rest,
            None => r matches Err(e) && e.kind == ErrorKind::UnexpectedEof,
        },
{
    let ghost b0 = unread_bits(*reader);
    let s_flag = match next_bit(reader) {
        Ok(v) => v,
        Err(e) => return Err(e),
    };
    let channel = match next_bits_u8(reader, 4) {
        Ok(v) => v,
        Err(e) => return Err(e),
    };
    assert(b0.skip(1).take(4) =~= b0.subrange(1, 5));
    assert(unread_bits(*reader) =~= b0.skip(5));
    let h_flag = match next_bit(reader) {
        Ok(v) => v,
        Err(e) => return Err(e),
    };
    assert(b0.skip(5)[0] == b0[5]);
    assert(unread_bits(*reader) =~= b0.skip(6));
    let _length = match next_bits_u32(reader, 10) {
        Ok(v) => v,
        Err(e) => return Err(e),
    };
    assert(unread_bits(*reader) =~= b0.skip(16));
    let has_program_change_chapter = match next_bit(reader) {
        Ok(v) => v,
        Err(e) => return Err(e),
    };
    assert(b0.skip(16)[0] == b0[16]);
    assert(unread_bits(*reader) =~= b0.skip(17));
    let has_control_change_chapter = match next_bit(reader) {
        Ok(v) => v,
        Err(e) => return Err(e),
    };
    assert(b0.skip(17)[0] == b0[17]);
    assert(unread_bits(*reader) =~= b0.skip(18));
    let mut k: u8 = 0;
    while k < 6
        invariant
            k <= 6,
            unread_bits(*old(reader)) == b0,
            b0.len() >= 18 + k,
            unread_bits(*reader) == b0.skip(18 + k),
        decreases 6 - k,
    {
        let ghost before = unread_bits(*reader);
        let _has_other_chapter = match next_bit(reader) {
            Ok(v) => v,
            Err(e) => return Err(e),
        };
        assert(before.skip(1) =~= b0.skip(18 + k + 1));
        k = k + 1;
    }
    let ghost after_toc = b0.skip(24);
    assert(unread_bits(*reader) == after_toc);
    let mut channel_journal = ChannelJournal { s_flag, channel, h_flag, chapters: Vec::new() };
    if has_program_change_chapter {
        let chapter = match ProgramChangeChapter::from_reader(reader) {
            Ok(c) => c,
            Err(e) => return Err(e),
        };
        channel_journal.chapters.push(ChannelJournalChapter::ProgramChange(chapter));
    }
    let ghost np: int = channel_journal.chapters@.len() as int;
    if has_control_change_chapter {
        let chapter = match ControlChangeChapter::from_reader(reader) {
            Ok(c) => c,
            Err(e) => return Err(e),
        };
        channel_journal.chapters.push(ChannelJournalChapter::ControlChange(chapter));
        assert(channel_journal.chapters@[np] matches ChannelJournalChapter::ControlChange(c));
    }
    Ok(channel_journal)
}

impl RecoveryJournal {
    /// Reads a recovery journal; see `spec_recovery_journal`. Fails with
    /// `UnexpectedEof` when the bits run out.
    #[verifier::loop_isolation(false)]
    pub fn from_reader(reader: &mut BitCursor<'_>) -> (r: Result<Self, Error>)
        ensures
            match spec_recovery_journal(unread_bits(*old(reader))) {
                Some((v, rest)) => r matches Ok(j) && j.matches(v) && unread_bits(*final(reader)) == rest,
                None => r matches Err(e) && e.kind == ErrorKind::UnexpectedEof,
            },
    {
        let ghost b0 = unread_bits(*reader);
        let s_flag = match next_bit(reader) {
            Ok(v) => v,
            Err(e) => return Err(e),
        };
        let a_flag = match next_bit(reader) {
            Ok(v) => v,
            Err(e) => return Err(e),
        };
        assert(b0.skip(1)[0] == b0[1]);
        assert(unread_bits(*reader) =~= b0.skip(2));
        let h_flag = match next_bit(reader) {
            Ok(v) => v,
            Err(e) => return Err(e),
        };
        assert(b0.skip(2)[0] == b0[2]);
        assert(unread_bits(*reader) =~= b0.skip(3));
        let total_channels = match next_bits_u8(reader, 4) {
            Ok(v) => v,
            Err(e) => return Err(e),
        };
        assert(b0.skip(3).take(4) =~= b0.subrange(3, 7));
        assert(unread_bits(*reader) =~= b0.skip(7));
        let checkpoint_sequence_number = match next_bits_u32(reader, 16) {
            Ok(v) => v,
            Err(e) => return Err(e),
        };
        assert(b0.skip(7).take(16) =~= b0.subrange(7, 23));
        assert(unread_bits(*reader) =~= b0.skip(23));
        let y_flag = match next_bit(reader) {
            Ok(v) => v,
            Err(e) => return Err(e),
        };
        assert(b0.skip(23)[0] == b0[23]);
        assert(unread_bits(*reader) =~= b0.skip(24));
        let system_journal = if y_flag {
            match read_system_journal(reader) {
                Ok(j) => Some(j),
                Err(e) => return Err(e),
            }
        } else {
            None
        };
        let ghost after_sj = unread_bits(*reader);
        let mut channel_journals: HashMap<u8, ChannelJournal> = HashMap::new();
        let ghost mut done: Seq<ChannelJournalView> = Seq::empty();
        let mut i: u8 = 0;
        while i < total_channels
            invariant
                i <= total_channels,
                done.len() == i,
                spec_channel_journals(after_sj, total_channels as nat) == match spec_channel_journals(
                    unread_bits(*reader),
                    (total_channels - i) as nat,
                ) {
                    Some((js, rest)) => Some((done + js, rest)),
                    None => None,
                },
                channel_journals@.dom() == journals_by_channel(done).dom(),
                forall|k: u8| #[trigger] channel_journals@.contains_key(k) ==> channel_journals@[k].matches(
                    journals_by_channel(done)[k],
                ),
            decreases total_channels - i,
        {
            let ghost before = unread_bits(*reader);
            let channel_journal = match read_channel_journal(reader) {
                Ok(j) => j,
                Err(e) => {
                    assert(spec_channel_journals(before, (total_channels - i) as nat) is None);
                    return Err(e);
                },
            };
            let ghost v = spec_channel_journal(before).unwrap().0;
            proof {
                let m = (total_channels - i) as nat;
                match spec_channel_journals(unread_bits(*reader), (m - 1) as nat) {
                    Some((js, rest)) => {
                        assert(done + (seq![v] + js) =~= done.push(v) + js);
                    },
                    None => {},
                }
                assert(done.push(v).drop_last() =~= done);
            }
            let channel = channel_journal.channel;
            channel_journals.insert(channel, channel_journal);
            proof {
                done = done.push(v);
            }
            i = i + 1;
        }
        assert(done + Seq::<ChannelJournalView>::empty() =~= done);
        Ok(RecoveryJournal {
            s_flag,
            a_flag,
            h_flag,
            total_channels,
            checkpoint_sequence_number,
            system_journal,
            channel_journals,
        })
    }

    /// Reads a recovery journal from the front of `bytes`; see `from_reader`.
    pub fn parse(bytes: &[u8]) -> (r: Result<Self, Error>)
        ensures
            match spec_recovery_journal(bits_of(bytes@)) {
                Some((v, rest)) => r matches Ok(j) && j.matches(v),
                None => r matches Err(e) && e.kind == ErrorKind::UnexpectedEof,
            },
    {
        let mut reader = bit_cursor(bytes);
        Self::from_reader(&mut reader)
    }
}

/// A journal that `parse` reads from `bytes` has the S, A and H flags of the top
/// three bits of the first byte (0x80, 0x40, 0x20) and the channel count of the
/// four bits below them.
pub proof fn lemma_parse_flags(bytes: Seq<u8>, j: RecoveryJournal)
    requires
        spec_recovery_journal(bits_of(bytes)) matches Some((v, _)) && j.matches(v),
    ensures
        bytes.len() >= 3,
        j.s_flag == (bytes[0] & 0x80 != 0),
        j.a_flag == (bytes[0] & 0x40 != 0),
        j.h_flag == (bytes[0] & 0x20 != 0),
        j.total_channels == (bytes[0] >> 1u8) & 0x0F,
{
    let bits = bits_of(bytes);
    let x = bytes[0];
    assert(bits[0] == ((x >> 7u8) & 1 == 1));
    assert(bits[1] == ((x >> 6u8) & 1 == 1));
    assert(bits[2] == ((x >> 5u8) & 1 == 1));
    assert(bits[3] == ((x >> 4u8) & 1 == 1));
    assert(bits[4] == ((x >> 3u8) & 1 == 1));
    assert(bits[5] == ((x >> 2u8) & 1 == 1));
    assert(bits[6] == ((x >> 1u8) & 1 == 1));
    assert(((x >> 7u8) & 1 == 1) == (x & 0x80 != 0) && ((x >> 6u8) & 1 == 1) == (x & 0x40 != 0) && ((x
        >> 5u8) & 1 == 1) == (x & 0x20 != 0)) by (bit_vector);
    let t = bits.subrange(3, 7);
    reveal_with_fuel(bits_value, 5);
    assert(t.drop_last().drop_last().drop_last().drop_last() =~= Seq::<bool>::empty());
    let b3: int = if (x >> 4u8) & 1 == 1 { 1 } else { 0 };
    let b4: int = if (x >> 3u8) & 1 == 1 { 1 } else { 0 };
    let b5: int = if (x >> 2u8) & 1 == 1 { 1 } else { 0 };
    let b6: int = if (x >> 1u8) & 1 == 1 { 1 } else { 0 };
    assert(bits_value(t) == ((b3 * 2 + b4) * 2 + b5) * 2 + b6);
    assert(((x >> 1u8) & 0x0F) as int == ((x >> 4u8) & 1) as int * 8 + ((x >> 3u8) & 1) as int * 4 + ((x
        >> 2u8) & 1) as int * 2 + ((x >> 1u8) & 1) as int) by (bit_vector);
    assert(((x >> 4u8) & 1) <= 1 && ((x >> 3u8) & 1) <= 1 && ((x >> 2u8) & 1) <= 1 && ((x >> 1u8) & 1) <= 1)
        by (bit_vector);
}

} // verus!
