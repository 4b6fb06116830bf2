//! A delta time held as a number, written with the shortest encoding and read
//! from a byte stream up to the first byte whose top bit is clear.
use crate::delta_time::{lemma_wrapped_vlq_push, shift_in_chunk};
use crate::byte_facts::lemma_byte_bits;
use crate::io::{Error, ErrorKind};
use crate::packet::midi_packet::delta_time::{
    lemma_terminator_index, spec_continuation, terminator_index, vlq_value,
};
use crate::packets::midi_packets::delta_time::{delta_time_size, lemma_vlq_bytes, put_delta_time, vlq_bytes, vlq_size};
use crate::stream::{ByteReader, ByteSink};
use vstd::prelude::*;

verus! {

#[derive(Debug, Clone, Copy, PartialEq, Eq, Structural)]
pub struct DeltaTime {
    delta_time: u32,
}

/// What `read` takes from a stream whose unread bytes are `rest`: up to and
/// including the first byte whose top bit is clear, seven bits from each, the
/// time kept to its low 32 bits; `None` when no such byte comes.
pub open spec fn spec_read_time(rest: Seq<u8>) -> Option<(u32, nat)> {
    match terminator_index(rest) {
        Some(k) => Some(((vlq_value(rest.take((k + 1) as int)) % 0x1_0000_0000) as u32, k + 1)),
        None => None,
    }
}

impl DeltaTime {
    /// The time.
    pub closed spec fn value(&self) -> u32 {
        self.delta_time
    }

    /// Delta times with the same time are the same.
    pub proof fn lemma_value_determines(self, other: Self)
        requires
            self.value() == other.value(),
        ensures
            self == other,
    {
    }

    pub fn new(delta_time: u32) -> (d: Self)
        ensures
            d.value() == delta_time,
    {
        DeltaTime { delta_time }
    }

    pub fn zero() -> (d: Self)
        ensures
            d.value() == 0,
    {
        DeltaTime { delta_time: 0 }
    }

    /// The number of bytes that `write` writes: one per seven bits, at least one.
    pub fn size(&self) -> (n: usize)
        ensures
            n == vlq_size(self.value() as nat),
    {
        delta_time_size(self.delta_time)
    }

    /// Appends the shortest encoding of the time and returns its length.
    pub fn write<W: ByteSink>(&self, writer: &mut W) -> (r: Result<usize, Error>)
        requires
            old(writer).sink_room() >= 5,
        ensures
            r matches Ok(n) && n == vlq_size(self.value() as nat),
            final(writer).sink_contents() == old(writer).sink_contents() + vlq_bytes(self.value()),
            final(writer).sink_room() == old(writer).sink_room() - vlq_size(self.value() as nat),
    {
        Ok(put_delta_time(writer, self.delta_time))
    }

    /// Reads bytes up to and including the first one whose top bit is clear,
    /// shifting in seven bits from each. Fails with `UnexpectedEof`, having
    /// read every byte, when the stream ends first.
    pub fn read(reader: &mut ByteReader) -> (r: Result<Self, Error>)
        requires
            old(reader).wf(),
        ensures
            final(reader).wf(),
            final(reader).spec_data() == old(reader).spec_data(),
            match spec_read_time(old(reader).rest()) {
                Some((t, n)) => {
                    &&& r matches Ok(d) && d.value() == t
                    &&& final(reader).rest() == old(reader).rest().skip(n as int)
                },
                None => {
                    &&& r matches Err(e) && e.kind == ErrorKind::UnexpectedEof
                    &&& final(reader).rest().len() == 0
                },
            },
    {
        let ghost start = reader.rest();
        let ghost mut i: int = 0;
        let mut delta_time: u32 = 0;
        assert(start.take(0) =~= Seq::<u8>::empty());
        assert(start.skip(0) =~= start);
        loop
            invariant_except_break
                reader.wf(),
                reader.spec_data() == old(reader).spec_data(),
                start == old(reader).rest(),
                0 <= i <= start.len(),
                reader.rest() == start.skip(i),
                delta_time == vlq_value(start.take(i)) % 0x1_0000_0000,
                forall|j: int| 0 <= j < i ==> spec_continuation(#[trigger] start[j]),
            ensures
                reader.wf(),
                reader.spec_data() == old(reader).spec_data(),
                1 <= i <= start.len(),
                terminator_index(start) == Some((i - 1) as nat),
                reader.rest() == start.skip(i),
                delta_time == vlq_value(start.take(i)) % 0x1_0000_0000,
            decreases start.len() - i,
        {
            let byte = match reader.read_u8() {
                Ok(b) => b,
                Err(e) => {
                    proof {
                        lemma_terminator_index(start, i);
                    }
                    return Err(e);
                },
            };
            assert(byte == start[i]);
            let next = shift_in_chunk(delta_time, byte);
            proof {
                lemma_wrapped_vlq_push(start.take(i), byte);
                assert(start.take(i).push(byte) =~= start.take(i + 1));
                assert(start.skip(i).skip(1) =~= start.skip(i + 1));
                i = i + 1;
            }
            delta_time = next;
            assert(byte & 0x80 == 0 <==> byte < 0x80) by {
                lemma_byte_bits();
            }
            if byte & 0b1000_0000 == 0 {
                proof {
                    lemma_terminator_index(start, i - 1);
                }
                break;
            }
        }
        proof {
            assert(spec_read_time(start) == Some((delta_time, i as nat)));
        }
        Ok(DeltaTime::new(delta_time))
    }
}

/// A delta time written by `write` is read back by `read` as the same time,
/// whatever follows it, and the read stops right after it.
pub proof fn lemma_write_then_read(t: u32, rest: Seq<u8>)
    ensures
        spec_read_time(vlq_bytes(t) + rest) == Some((t, vlq_size(t as nat))),
{
    let d = vlq_bytes(t);
    let s = d + rest;
    lemma_vlq_bytes(t);
    assert forall|j: int| 0 <= j < d.len() - 1 implies spec_continuation(#[trigger] s[j]) by {
        assert(s[j] == d[j]);
    }
    assert(s[d.len() - 1] == d.last());
    lemma_terminator_index(s, d.len() - 1);
    assert(s.take(d.len() as int) =~= d);
}

} // verus!
