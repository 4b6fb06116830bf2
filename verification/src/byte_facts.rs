//! Facts about the bits of a byte that the parsers and writers rely on,
//! proved once with the bit-vector solver.
use vstd::prelude::*;

verus! {

/// The top bit, the seven low bits, the two nibbles, and how the upper nibble
/// of a status byte is kept under the masks used in this crate.
pub proof fn lemma_byte_bits()
    by (bit_vector)
    ensures
        forall|b: u8| #[trigger] (b & 0x80) != 0 <==> b >= 0x80,
        forall|b: u8| #[trigger] (b & 0x7f) == b % 0x80,
        forall|b: u8| #[trigger] (b & 0x0F) == b % 0x10,
        forall|b: u8| #[trigger] ((b & 0xF0) & 0x0F) == 0,
        forall|b: u8| #[trigger] ((b & 0xF0) & 0x80) == b & 0x80,
        forall|b: u8| #[trigger] ((b & 0xF0) & 0xF0) == b & 0xF0,
        forall|b: u8| #[trigger] (b & 0xF0) % 0x10 == 0 && (b >= 0x80 ==> (b & 0xF0) >= 0x80),
{
}

/// Two bytes joined by a shift and an or are their big-endian value.
pub proof fn lemma_join_bytes()
    by (bit_vector)
    ensures
        forall|h: u16, l: u16| h < 0x100 && l < 0x100 ==> #[trigger] ((h << 8u16) | l) == h * 0x100 + l,
{
}

/// The fields of a byte as numbers: the top two bits, and single bits 6, 5 and 4.
pub proof fn lemma_byte_fields()
    by (bit_vector)
    ensures
        forall|b: u8| #[trigger] ((b >> 6u8) & 0b11) == b / 64,
        forall|b: u8| #[trigger] (b & 0x40) != 0 <==> (b / 64) % 2 == 1,
        forall|b: u8| #[trigger] (b & 0x20) != 0 <==> (b / 32) % 2 == 1,
        forall|b: u8| #[trigger] (b & 0x10) != 0 <==> (b / 16) % 2 == 1,
{
}

} // verus!
