//! Chapter C of a channel journal: the last value of each controller.
use crate::bits::{bit_cursor, bits_of, bits_value, unread_bits, BitCursor};
use crate::io::{Error, ErrorKind};
use crate::packet::midi_packet::recovery_journal::program_change_chapter::{next_bit, next_bits_u8};
use vstd::prelude::*;

verus! {

#[derive(Debug, PartialEq)]
pub struct ControlChangeChapter {
    pub entries: Vec<ControlChangeEntry>,
}

#[derive(Debug, Clone, Copy, PartialEq, Eq, Structural)]
pub struct ControlChangeEntry {
    pub number: u8,
    pub value: u8,
    pub value_type: ControlChangeChapterValueType,
}

#[derive(Debug, Clone, Copy, PartialEq, Eq, Structural)]
pub enum ControlChangeChapterValueType {
    Value,
    Toggle,
    Count,
}

/// The entry that the first fifteen bits of `bits` hold: seven bits of
/// controller number, then the A flag; with A set, the T flag (toggle, else
/// count) and six bits of value; with A clear, seven bits of value.
pub open spec fn spec_control_change_entry(bits: Seq<bool>) -> Option<(ControlChangeEntry, Seq<bool>)> {
    if bits.len() < 15 {
        None
    } else {
        Some(
            (
                ControlChangeEntry {
                    number: bits_value(bits.subrange(0, 7)) as u8,
                    value: if bits[7] {
                        bits_value(bits.subrange(9, 15)) as u8
                    } else {
                        bits_value(bits.subrange(8, 15)) as u8
                    },
                    value_type: if !bits[7] {
                        ControlChangeChapterValueType::Value
                    } else if bits[8] {
                        ControlChangeChapterValueType::Toggle
                    } else {
                        ControlChangeChapterValueType::Count
                    },
                },
                bits.skip(15),
            ),
        )
    }
}

/// `n` entries one after another.
pub open spec fn spec_control_change_entries(bits: Seq<bool>, n: nat) -> Option<(Seq<ControlChangeEntry>, Seq<bool>)>
    decreases n,
{
    if n == 0 {
        Some((Seq::empty(), bits))
    } else {
        match spec_control_change_entry(bits) {
            Some((e, rest)) => match spec_control_change_entries(rest, (n - 1) as nat) {
                Some((es, rest2)) => Some((seq![e] + es, rest2)),
                None => None,
            },
            None => None,
        }
    }
}

/// The chapter at the front of `bits`: eight bits of entry count, then the entries.
pub open spec fn spec_control_change(bits: Seq<bool>) -> Option<(Seq<ControlChangeEntry>, Seq<bool>)> {
    if bits.len() < 8 {
        None
    } else {
        spec_control_change_entries(bits.skip(8), bits_value(bits.take(8)))
    }
}

/// Reads one entry; fails with `UnexpectedEof` when fewer than fifteen bits are left.
fn read_entry(reader: &mut BitCursor<'_>) -> (r: Result<ControlChangeEntry, Error>)
    ensures
        match spec_control_change_entry(unread_bits(*old(reader))) {
            Some((e, rest)) => r matches Ok(v) && v == e && unread_bits(*final(reader)) == rest,
            None => r matches Err(x) && x.kind == ErrorKind::UnexpectedEof,
        },
{
    let ghost b0 = unread_bits(*reader);
    let number = match next_bits_u8(reader, 7) {
        Ok(v) => v,
        Err(e) => return Err(e),
    };
    assert(b0.take(7) =~= b0.subrange(0, 7));
    let a_flag = match next_bit(reader) {
        Ok(v) => v,
        Err(e) => return Err(e),
    };
    assert(b0.skip(7)[0] == b0[7]);
    assert(unread_bits(*reader) =~= b0.skip(8));
    let (value, value_type) = if a_flag {
        let toggle = match next_bit(reader) {
            Ok(v) => v,
            Err(e) => return Err(e),
        };
        assert(b0.skip(8)[0] == b0[8]);
        assert(unread_bits(*reader) =~= b0.skip(9));
        let value = match next_bits_u8(reader, 6) {
            Ok(v) => v,
            Err(e) => return Err(e),
        };
        assert(b0.skip(9).take(6) =~= b0.subrange(9, 15));
        let value_type = if toggle {
            ControlChangeChapterValueType::Toggle
        } else {
            ControlChangeChapterValueType::Count
        };
        (value, value_type)
    } else {
        let value = match next_bits_u8(reader, 7) {
            Ok(v) => v,
            Err(e) => return Err(e),
        };
        assert(b0.skip(8).take(7) =~= b0.subrange(8, 15));
        (value, ControlChangeChapterValueType::Value)
    };
    assert(unread_bits(*reader) =~= b0.skip(15));
    Ok(ControlChangeEntry { number, value, value_type })
}

impl ControlChangeChapter {
    /// Reads the chapter: the entry count, then that many entries. Fails with
    /// `UnexpectedEof` when the bits run out.
    pub fn from_reader(reader: &mut BitCursor<'_>) -> (r: Result<Self, Error>)
        ensures
            match spec_control_change(unread_bits(*old(reader))) {
                Some((es, rest)) => r matches Ok(c) && c.entries@ == es && unread_bits(*final(reader)) == rest,
                None => r matches Err(e) && e.kind == ErrorKind::UnexpectedEof,
            },
    {
        let ghost b0 = unread_bits(*reader);
        let length = match next_bits_u8(reader, 8) {
            Ok(v) => v,
            Err(e) => return Err(e),
        };
        let ghost after_len = unread_bits(*reader);
        let mut entries: Vec<ControlChangeEntry> = Vec::new();
        let mut i: u8 = 0;
        while i < length
            invariant
                i <= length,
                b0 == unread_bits(*old(reader)),
                after_len == b0.skip(8),
                length == bits_value(b0.take(8)),
                b0.len() >= 8,
                spec_control_change_entries(after_len, length as nat) == match spec_control_change_entries(
                    unread_bits(*reader),
                    (length - i) as nat,
                ) {
                    Some((es, rest)) => Some((entries@ + es, rest)),
                    None => None,
                },
            decreases length - i,
        {
            let ghost before = unread_bits(*reader);
            let entry = match read_entry(reader) {
                Ok(e) => e,
                Err(e) => {
                    assert(spec_control_change_entries(before, (length - i) as nat) is None);
                    return Err(e);
                },
            };
            proof {
                lemma_entries_step(before, (length - i) as nat, entries@, entry);
            }
            entries.push(entry);
            i = i + 1;
        }
        assert(entries@ + Seq::<ControlChangeEntry>::empty() =~= entries@);
        Ok(ControlChangeChapter { entries })
    }

    /// Reads the chapter from the front of `bytes`; see `from_reader`.
    fn from_bytes(bytes: &[u8]) -> (r: Result<Self, Error>)
        ensures
            match spec_control_change(bits_of(bytes@)) {
                Some((es, rest)) => r matches Ok(c) && c.entries@ == es,
                None => r matches Err(e) && e.kind == ErrorKind::UnexpectedEof,
            },
    {
        let mut reader = bit_cursor(bytes);
        Self::from_reader(&mut reader)
    }
}

/// Reading one more entry moves it from the entries still to come to those read.
proof fn lemma_entries_step(bits: Seq<bool>, n: nat, read: Seq<ControlChangeEntry>, e: ControlChangeEntry)
    requires
        n >= 1,
        spec_control_change_entry(bits) matches Some((e2, _)) && e2 == e,
    ensures
        match spec_control_change_entries(bits, n) {
            Some((es, rest)) => Some((read + es, rest)),
            None => None::<(Seq<ControlChangeEntry>, Seq<bool>)>,
        } == match spec_control_change_entries(spec_control_change_entry(bits).unwrap().1, (n - 1) as nat) {
            Some((es, rest)) => Some((read.push(e) + es, rest)),
            None => None::<(Seq<ControlChangeEntry>, Seq<bool>)>,
        },
{
    let rest = spec_control_change_entry(bits).unwrap().1;
    match spec_control_change_entries(rest, (n - 1) as nat) {
        Some((es, rest2)) => {
            assert(read + (seq![e] + es) =~= read.push(e) + es);
        },
        None => {},
    }
}

} // verus!
