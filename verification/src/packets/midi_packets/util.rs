//! The top bit of a MIDI byte, which marks status bytes.
use crate::byte_facts::lemma_byte_bits;
use vstd::prelude::*;

verus! {

pub trait StatusBit {
    fn status_bit(&self) -> bool;

    fn non_status_byte(&self) -> u8;
}

impl StatusBit for u8 {
    /// Whether the top bit is set.
    fn status_bit(&self) -> (r: bool)
        ensures
            r == (*self >= 0x80),
    {
        let b = *self;
        assert((b & 0x80 != 0) == (b >= 0x80)) by { lemma_byte_bits(); }
        *self & 0x80 != 0
    }

    /// The lower seven bits.
    fn non_status_byte(&self) -> (r: u8)
        ensures
            r == *self % 0x80,
    {
        let b = *self;
        assert(b & 0x7F == b % 0x80) by {
            lemma_byte_bits();
            assert(b & 0x7F == b & 0x7f);
        }
        *self & 0x7F
    }
}

} // verus!
