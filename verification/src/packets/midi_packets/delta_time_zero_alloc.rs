//! A delta time that borrows its bytes from the packet it was read from.
use super::util::StatusBit;
use crate::packet::midi_packet::delta_time::{
    lemma_terminator_index, lemma_vlq_push, spec_chunk_time, spec_continuation, terminator_index,
    vlq_value,
};
use vstd::prelude::*;

verus! {

/// The bytes of a delta time: those with the top bit set, then the first one
/// whose top bit is clear, which ends it.
#[derive(Debug)]
pub struct DeltaTimeZeroAlloc<'a> {
    data: &'a [u8],
}

impl<'a> DeltaTimeZeroAlloc<'a> {
    pub closed spec fn spec_data(&self) -> Seq<u8> {
        self.data@
    }

    /// Takes the bytes up to and including the first one whose top bit is
    /// clear, and returns them with their count. Such a byte must exist.
    pub fn from_be_bytes(bytes: &'a [u8]) -> (r: (Self, usize))
        requires
            terminator_index(bytes@) is Some,
        ensures
            r.1 >= 1,
            terminator_index(bytes@) == Some((r.1 - 1) as nat),
            r.0.spec_data() == bytes@.take(r.1 as int),
    {
        let mut len: usize = 0;
        while len < bytes.len() && bytes[len].status_bit()
            invariant
                len <= bytes@.len(),
                terminator_index(bytes@) is Some,
                forall|j: int| 0 <= j < len ==> spec_continuation(#[trigger] bytes@[j]),
            decreases bytes@.len() - len,
        {
            len = len + 1;
        }
        proof {
            lemma_terminator_index(bytes@, len as int);
        }
        let delta_time = &bytes[0..len + 1];
        assert(delta_time@ =~= bytes@.take(len + 1));
        (Self { data: delta_time }, len + 1)
    }

    /// The seven low bits of each byte, the first most significant, keeping
    /// the low 32 bits.
    pub fn delta_time(&self) -> (t: u32)
        ensures
            t == vlq_value(self.spec_data()) % 0x1_0000_0000,
    {
        let mut delta_time: u32 = 0;
        let mut i: usize = 0;
        assert(self.data@.take(0) =~= Seq::<u8>::empty());
        while i < self.data.len()
            invariant
                i <= self.data@.len(),
                delta_time == vlq_value(self.data@.take(i as int)) % 0x1_0000_0000,
            decreases self.data@.len() - i,
        {
            let byte = self.data[i];
            let x = delta_time;
            let ghost v = vlq_value(self.data@.take(i as int));
            let ghost c = spec_chunk_time(byte);
            let low = byte.non_status_byte();
            let next = (x << 7) | (low as u32);
            assert(next as int == (x as int * 128 + low as int) % 0x1_0000_0000) by (bit_vector)
                requires
                    next == (x << 7) | (low as u32),
                    low < 0x80,
            ;
            proof {
                let m: int = 0x1_0000_0000;
                lemma_vlq_push(self.data@.take(i as int), byte);
                assert(self.data@.take(i as int).push(byte) =~= self.data@.take(i + 1));
                vstd::arithmetic::div_mod::lemma_mul_mod_noop_left(v as int, 128, m);
                vstd::arithmetic::div_mod::lemma_add_mod_noop(((v as int) % m) * 128, c as int, m);
                vstd::arithmetic::div_mod::lemma_add_mod_noop((v as int) * 128, c as int, m);
            }
            delta_time = next;
            i = i + 1;
        }
        assert(self.data@.take(i as int) =~= self.data@);
        delta_time
    }
}

} // verus!
