//! Big-endian integers in byte sequences, read and written through `byteorder`.
use byteorder::{BigEndian, ByteOrder};
use vstd::prelude::*;

verus! {

/// The value of two bytes, most significant first.
pub open spec fn be_u16_value(s: Seq<u8>) -> int {
    s[0] * 0x100 + s[1]
}

/// The value of four bytes, most significant first.
pub open spec fn be_u32_value(s: Seq<u8>) -> int {
    s[0] * 0x100_0000 + s[1] * 0x1_0000 + s[2] * 0x100 + s[3]
}

/// The value of eight bytes, most significant first.
pub open spec fn be_u64_value(s: Seq<u8>) -> int {
    be_u32_value(s) * 0x1_0000_0000 + be_u32_value(s.skip(4))
}

/// The two bytes of `n`, most significant first.
pub open spec fn u16_be_bytes(n: u16) -> Seq<u8> {
    seq![(n / 0x100) as u8, (n % 0x100) as u8]
}

/// The four bytes of `n`, most significant first.
pub open spec fn u32_be_bytes(n: u32) -> Seq<u8> {
    seq![
        (n / 0x100_0000) as u8,
        ((n / 0x1_0000) % 0x100) as u8,
        ((n / 0x100) % 0x100) as u8,
        (n % 0x100) as u8,
    ]
}

/// The eight bytes of `n`, most significant first.
pub open spec fn u64_be_bytes(n: u64) -> Seq<u8> {
    u32_be_bytes((n / 0x1_0000_0000) as u32) + u32_be_bytes((n % 0x1_0000_0000) as u32)
}

/// Reading back the two bytes of `n` gives `n`.
pub proof fn lemma_u16_be_roundtrip(n: u16)
    ensures
        u16_be_bytes(n).len() == 2,
        be_u16_value(u16_be_bytes(n)) == n,
{
}

/// Reading back the four bytes of `n` gives `n`.
pub proof fn lemma_u32_be_roundtrip(n: u32)
    ensures
        u32_be_bytes(n).len() == 4,
        be_u32_value(u32_be_bytes(n)) == n,
{
}

/// Reading back the eight bytes of `n` gives `n`.
pub proof fn lemma_u64_be_roundtrip(n: u64)
    ensures
        u64_be_bytes(n).len() == 8,
        be_u64_value(u64_be_bytes(n)) == n,
{
    let hi = (n / 0x1_0000_0000) as u32;
    let lo = (n % 0x1_0000_0000) as u32;
    lemma_u32_be_roundtrip(hi);
    lemma_u32_be_roundtrip(lo);
    assert(u64_be_bytes(n).skip(4) =~= u32_be_bytes(lo));
    assert(be_u32_value(u64_be_bytes(n)) == be_u32_value(u32_be_bytes(hi)));
}

/// Two bytes read as a number give back the same two bytes.
pub proof fn lemma_u16_be_bytes_of_value(s: Seq<u8>)
    requires
        s.len() >= 2,
    ensures
        u16_be_bytes(be_u16_value(s) as u16) == s.take(2),
{
    let (a, b) = (s[0] as int, s[1] as int);
    let x = a * 0x100 + b;
    assert(x / 0x100 == a && x % 0x100 == b) by (nonlinear_arith)
        requires
            0 <= a < 0x100,
            0 <= b < 0x100,
            x == a * 0x100 + b,
    ;
    assert(u16_be_bytes(x as u16) =~= s.take(2));
}

/// Four bytes read as a number give back the same four bytes.
pub proof fn lemma_u32_be_bytes_of_value(s: Seq<u8>)
    requires
        s.len() >= 4,
    ensures
        u32_be_bytes(be_u32_value(s) as u32) == s.take(4),
{
    let (a, b, c, d) = (s[0] as int, s[1] as int, s[2] as int, s[3] as int);
    let x = a * 0x100_0000 + b * 0x1_0000 + c * 0x100 + d;
    assert(x / 0x100_0000 == a && (x / 0x1_0000) % 0x100 == b && (x / 0x100) % 0x100 == c && x
        % 0x100 == d) by (nonlinear_arith)
        requires
            0 <= a < 0x100,
            0 <= b < 0x100,
            0 <= c < 0x100,
            0 <= d < 0x100,
            x == a * 0x100_0000 + b * 0x1_0000 + c * 0x100 + d,
    ;
    assert(u32_be_bytes(x as u32) =~= s.take(4));
}

/// Overwrites the front of `dst` with `src` and leaves the rest.
pub(crate) fn copy_prefix(dst: &mut [u8], src: &[u8])
    requires
        old(dst)@.len() >= src@.len(),
    ensures
        final(dst)@ == src@ + old(dst)@.skip(src@.len() as int),
{
    let n = src.len();
    let mut i: usize = 0;
    while i < n
        invariant
            n == src@.len(),
            i <= n,
            n <= old(dst)@.len(),
            dst@.len() == old(dst)@.len(),
            forall|j: int| 0 <= j < i ==> dst@[j] == src@[j],
            forall|j: int| i <= j < dst@.len() ==> dst@[j] == old(dst)@[j],
        decreases n - i,
    {
        dst[i] = src[i];
        i = i + 1;
    }
    assert(dst@ =~= src@ + old(dst)@.skip(n as int));
}

/// std's `&mut bytes[start..]`: the part of `bytes` from `start` on, as a
/// mutable slice whose final contents become the tail of `bytes`.
#[verifier::external_body]
pub(crate) fn tail_mut(bytes: &mut [u8], start: usize) -> (r: &mut [u8])
    requires
        start <= old(bytes)@.len(),
    ensures
        r@ == old(bytes)@.skip(start as int),
        final(bytes)@ == old(bytes)@.take(start as int) + final(r)@,
{
    &mut bytes[start..]
}

/// `byteorder`'s `BigEndian::read_u16`: the first two bytes of `buf`, most
/// significant first. It panics on a shorter buffer, which `requires` rules out.
#[verifier::external_body]
pub(crate) fn read_u16_be(buf: &[u8]) -> (r: u16)
    requires
        buf@.len() >= 2,
    ensures
        r == be_u16_value(buf@),
{
    BigEndian::read_u16(buf)
}

/// `byteorder`'s `BigEndian::read_u32`: the first four bytes of `buf`, most
/// significant first. It panics on a shorter buffer, which `requires` rules out.
#[verifier::external_body]
pub(crate) fn read_u32_be(buf: &[u8]) -> (r: u32)
    requires
        buf@.len() >= 4,
    ensures
        r == be_u32_value(buf@),
{
    BigEndian::read_u32(buf)
}

/// `byteorder`'s `BigEndian::read_u64`: the first eight bytes of `buf`, most
/// significant first. It panics on a shorter buffer, which `requires` rules out.
#[verifier::external_body]
pub(crate) fn read_u64_be(buf: &[u8]) -> (r: u64)
    requires
        buf@.len() >= 8,
    ensures
        r == be_u64_value(buf@),
{
    BigEndian::read_u64(buf)
}

/// `byteorder`'s `BigEndian::write_u16`: overwrites the first two bytes of `buf`
/// with `n`, most significant first, and leaves the rest.
#[verifier::external_body]
pub(crate) fn write_u16_be(buf: &mut [u8], n: u16)
    requires
        old(buf)@.len() >= 2,
    ensures
        final(buf)@ == u16_be_bytes(n) + old(buf)@.skip(2),
{
    BigEndian::write_u16(buf, n)
}

/// `byteorder`'s `BigEndian::write_u32`: overwrites the first four bytes of `buf`
/// with `n`, most significant first, and leaves the rest.
#[verifier::external_body]
pub(crate) fn write_u32_be(buf: &mut [u8], n: u32)
    requires
        old(buf)@.len() >= 4,
    ensures
        final(buf)@ == u32_be_bytes(n) + old(buf)@.skip(4),
{
    BigEndian::write_u32(buf, n)
}

/// `byteorder`'s `BigEndian::write_u64`: overwrites the first eight bytes of `buf`
/// with `n`, most significant first, and leaves the rest.
#[verifier::external_body]
pub(crate) fn write_u64_be(buf: &mut [u8], n: u64)
    requires
        old(buf)@.len() >= 8,
    ensures
        final(buf)@ == u64_be_bytes(n) + old(buf)@.skip(8),
{
    BigEndian::write_u64(buf, n)
}

/// The value of two bytes, most significant first, as `u16::from_be_bytes`
/// gives it.
pub(crate) fn u16_from_be_bytes(b: [u8; 2]) -> (r: u16)
    ensures
        r == be_u16_value(b@),
{
    (b[0] as u16) * 0x100 + (b[1] as u16)
}

/// The value of four bytes, most significant first, as `u32::from_be_bytes`
/// gives it.
pub(crate) fn u32_from_be_bytes(b: [u8; 4]) -> (r: u32)
    ensures
        r == be_u32_value(b@),
{
    (b[0] as u32) * 0x100_0000 + (b[1] as u32) * 0x1_0000 + (b[2] as u32) * 0x100 + (b[3] as u32)
}

/// The value of eight bytes, most significant first, as `u64::from_be_bytes`
/// gives it.
pub(crate) fn u64_from_be_bytes(b: [u8; 8]) -> (r: u64)
    ensures
        r == be_u64_value(b@),
{
    let high = u32_from_be_bytes([b[0], b[1], b[2], b[3]]);
    let low = u32_from_be_bytes([b[4], b[5], b[6], b[7]]);
    assert(b@.skip(4)[0] == b[4] && b@.skip(4)[1] == b[5] && b@.skip(4)[2] == b[6] && b@.skip(4)[3] == b[7]);
    (high as u64) * 0x1_0000_0000 + (low as u64)
}

/// The four bytes of `n`, most significant first, as `u32::to_be_bytes` gives
/// them.
pub(crate) fn u32_to_be_bytes(n: u32) -> (r: [u8; 4])
    ensures
        r@ == u32_be_bytes(n),
{
    let r = [(n / 0x100_0000) as u8, ((n / 0x1_0000) % 0x100) as u8, ((n / 0x100) % 0x100) as u8, (n % 0x100) as u8];
    assert(r@ =~= u32_be_bytes(n));
    r
}

/// The eight bytes of `n`, most significant first, as `u64::to_be_bytes` gives
/// them.
pub(crate) fn u64_to_be_bytes(n: u64) -> (r: [u8; 8])
    ensures
        r@ == u64_be_bytes(n),
{
    let high = u32_to_be_bytes((n / 0x1_0000_0000) as u32);
    let low = u32_to_be_bytes((n % 0x1_0000_0000) as u32);
    let r = [high[0], high[1], high[2], high[3], low[0], low[1], low[2], low[3]];
    assert(r@ =~= u64_be_bytes(n));
    r
}

} // verus!
