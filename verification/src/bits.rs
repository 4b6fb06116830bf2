//! `bitstream_io::BitReader` over a byte slice, most significant bit first, as
//! the recovery journal parser uses it.
use bitstream_io::{BigEndian, BitRead, BitReader};
use vstd::prelude::*;

verus! {

/// A big-endian bit reader over borrowed bytes. Verus sees none of its
/// fields; what it holds is stated through `unread_bits`.
#[verifier::external_body]
pub struct BitCursor<'a> {
    reader: BitReader<&'a [u8], BigEndian>,
}

/// The bits of `bytes`, each byte's most significant bit first.
pub open spec fn bits_of(bytes: Seq<u8>) -> Seq<bool> {
    Seq::new(bytes.len() * 8, |i: int| (bytes[i / 8] >> (7 - i % 8) as u8) & 1 == 1)
}

/// The number that `bits` stand for, the first most significant.
pub open spec fn bits_value(bits: Seq<bool>) -> nat
    decreases bits.len(),
{
    if bits.len() == 0 {
        0
    } else {
        bits_value(bits.drop_last()) * 2 + if bits.last() {
            1nat
        } else {
            0nat
        }
    }
}

/// The bits that a reader has not yet given out.
pub uninterp spec fn unread_bits(r: BitCursor<'_>) -> Seq<bool>;

/// `BitReader::endian` over `bytes`: all their bits are still to be read.
#[verifier::external_body]
pub(crate) fn bit_cursor<'a>(bytes: &'a [u8]) -> (r: BitCursor<'a>)
    ensures
        unread_bits(r) == bits_of(bytes@),
{
    BitCursor { reader: BitReader::endian(bytes, BigEndian) }
}

/// `BitRead::read_bit`: the next bit, or `None` when none is left.
#[verifier::external_body]
pub(crate) fn read_bit(r: &mut BitCursor<'_>) -> (b: Option<bool>)
    ensures
        match b {
            Some(v) => unread_bits(*old(r)).len() >= 1 && v == unread_bits(*old(r))[0] && unread_bits(
                *final(r),
            ) == unread_bits(*old(r)).drop_first(),
            None => unread_bits(*old(r)).len() == 0,
        },
{
    r.reader.read_bit().ok()
}

/// `BitRead::read_var::<u32>`: the next `bits` bits as a number, the first
/// most significant, or `None` when fewer are left (the reader's position is
/// then left unsaid).
#[verifier::external_body]
pub(crate) fn read_bits(r: &mut BitCursor<'_>, bits: u32) -> (v: Option<u32>)
    requires
        1 <= bits <= 32,
    ensures
        match v {
            Some(x) => unread_bits(*old(r)).len() >= bits && x == bits_value(
                unread_bits(*old(r)).take(bits as int),
            ) && unread_bits(*final(r)) == unread_bits(*old(r)).skip(bits as int),
            None => unread_bits(*old(r)).len() < bits,
        },
{
    r.reader.read_var::<u32>(bits).ok()
}

} // verus!
