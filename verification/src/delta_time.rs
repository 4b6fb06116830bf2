//! A delta time read from the front of a byte slice, any number of bytes long.
use crate::packet::midi_packet::delta_time::{
    lemma_terminator_index, lemma_vlq_push, spec_chunk_time, spec_continuation, terminator_index,
    vlq_value,
};
use crate::byte_facts::lemma_byte_bits;
use vstd::prelude::*;

verus! {

#[derive(Debug, Clone, PartialEq, Eq, Structural)]
pub struct DeltaTime {
    pub delta_time: u32,
}

/// What `from_bytes` reads: up to and including the first byte whose top bit
/// is clear, seven bits from each, keeping the low 32 bits of the time.
pub open spec fn spec_delta_time_from_bytes(bytes: Seq<u8>) -> Option<(nat, nat)> {
    match terminator_index(bytes) {
        Some(k) => Some((vlq_value(bytes.take((k + 1) as int)) % 0x1_0000_0000, k + 1)),
        None => None,
    }
}

/// Shifts the seven time bits of `byte` in below `acc`, keeping 32 bits.
pub(crate) fn shift_in_chunk(acc: u32, byte: u8) -> (next: u32)
    ensures
        next as int == (acc as int * 128 + spec_chunk_time(byte)) % 0x1_0000_0000,
{
    let low = byte & 0b0111_1111;
    assert(low == byte % 0x80 && low < 0x80) by {
        lemma_byte_bits();
        assert(byte & 0x7F == byte & 0x7f);
    }
    let next = (acc << 7) | low as u32;
    assert(next as int == (acc as int * 128 + low as int) % 0x1_0000_0000) by (bit_vector)
        requires
            next == (acc << 7) | (low as u32),
            low < 0x80,
    ;
    next
}

/// The time of a run of bytes, kept to 32 bits, after one more byte.
pub(crate) proof fn lemma_wrapped_vlq_push(s: Seq<u8>, b: u8)
    ensures
        vlq_value(s.push(b)) % 0x1_0000_0000 == ((vlq_value(s) % 0x1_0000_0000) * 128
            + spec_chunk_time(b)) % 0x1_0000_0000,
{
    let m: int = 0x1_0000_0000;
    let v = vlq_value(s) as int;
    let c = spec_chunk_time(b) as int;
    lemma_vlq_push(s, b);
    vstd::arithmetic::div_mod::lemma_mul_mod_noop_left(v, 128, m);
    vstd::arithmetic::div_mod::lemma_add_mod_noop((v % m) * 128, c, m);
    vstd::arithmetic::div_mod::lemma_add_mod_noop(v * 128, c, m);
}

impl DeltaTime {
    pub fn new(delta_time: u32) -> (d: Self)
        ensures
            d.delta_time == delta_time,
    {
        DeltaTime { delta_time }
    }

    /// Reads a delta time and returns it with the number of bytes read. Fails
    /// when the bytes run out before a byte with its top bit clear.
    pub fn from_bytes(bytes: &[u8]) -> (r: Result<(Self, usize), String>)
        ensures
            match spec_delta_time_from_bytes(bytes@) {
                Some((t, n)) => r matches Ok((d, m)) && d.delta_time == t && m == n,
                None => r matches Err(e) && e@ == "Not enough data for delta time"@,
            },
    {
        let mut delta_time = 0u32;
        let mut i: usize = 0;
        assert(bytes@.take(0) =~= Seq::<u8>::empty());
        loop
            invariant
                i <= bytes@.len(),
                delta_time == vlq_value(bytes@.take(i as int)) % 0x1_0000_0000,
                forall|j: int| 0 <= j < i ==> spec_continuation(#[trigger] bytes@[j]),
            decreases bytes@.len() - i,
        {
            if i >= bytes.len() {
                proof {
                    lemma_terminator_index(bytes@, i as int);
                }
                return Err("Not enough data for delta time".to_owned());
            }
            let byte = bytes[i];
            let next = shift_in_chunk(delta_time, byte);
            proof {
                lemma_wrapped_vlq_push(bytes@.take(i as int), byte);
                assert(bytes@.take(i as int).push(byte) =~= bytes@.take(i + 1));
            }
            delta_time = next;
            i += 1;
            assert(byte & 0x80 == 0 <==> byte < 0x80) by { lemma_byte_bits(); }
            if byte & 0b1000_0000 == 0 {
                proof {
                    lemma_terminator_index(bytes@, (i - 1) as int);
                }
                return Ok((DeltaTime::new(delta_time), i));
            }
        }
    }
}

} // verus!
