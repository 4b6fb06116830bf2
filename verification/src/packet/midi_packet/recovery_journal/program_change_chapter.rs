//! Chapter P of a channel journal: the last program change, with the bank.
use crate::bits::{bits_value, read_bit, read_bits, unread_bits, BitCursor};
use crate::io::{Error, ErrorKind};
use vstd::prelude::*;

verus! {

#[derive(Debug, Clone, Copy, PartialEq, Eq, Structural)]
pub struct ProgramChangeChapter {
    pub s: bool,
    pub program: u8,
    pub b: bool,
    pub bank_msb: u8,
    pub x: bool,
    pub bank_lsb: u8,
}

/// The chapter that the first 24 bits of `bits` hold: S, seven bits of program,
/// B, seven bits of bank MSB, X, seven bits of bank LSB; `None` on fewer bits.
pub open spec fn spec_program_change(bits: Seq<bool>) -> Option<(ProgramChangeChapter, Seq<bool>)> {
    if bits.len() < 24 {
        None
    } else {
        Some(
            (
                ProgramChangeChapter {
                    s: bits[0],
                    program: bits_value(bits.subrange(1, 8)) as u8,
                    b: bits[8],
                    bank_msb: bits_value(bits.subrange(9, 16)) as u8,
                    x: bits[16],
                    bank_lsb: bits_value(bits.subrange(17, 24)) as u8,
                },
                bits.skip(24),
            ),
        )
    }
}

/// Reads a bit; fails with `UnexpectedEof` when none is left.
pub fn next_bit(reader: &mut BitCursor<'_>) -> (r: Result<bool, Error>)
    ensures
        match r {
            Ok(v) => unread_bits(*old(reader)).len() >= 1 && v == unread_bits(*old(reader))[0]
                && unread_bits(*final(reader)) == unread_bits(*old(reader)).skip(1),
            Err(e) => unread_bits(*old(reader)).len() == 0 && e.kind == ErrorKind::UnexpectedEof,
        },
{
    match read_bit(reader) {
        Some(v) => {
            assert(unread_bits(*old(reader)).drop_first() =~= unread_bits(*old(reader)).skip(1));
            Ok(v)
        },
        None => Err(Error::new(ErrorKind::UnexpectedEof)),
    }
}

/// Reads `n` bits, at most eight, as a byte; fails with `UnexpectedEof` when
/// fewer are left.
pub fn next_bits_u8(reader: &mut BitCursor<'_>, n: u32) -> (r: Result<u8, Error>)
    requires
        1 <= n <= 8,
    ensures
        match r {
            Ok(v) => unread_bits(*old(reader)).len() >= n && v == bits_value(unread_bits(*old(reader)).take(n as int))
                && unread_bits(*final(reader)) == unread_bits(*old(reader)).skip(n as int),
            Err(e) => unread_bits(*old(reader)).len() < n && e.kind == ErrorKind::UnexpectedEof,
        },
{
    match read_bits(reader, n) {
        Some(v) => {
            proof {
                lemma_bits_value_bound(unread_bits(*old(reader)).take(n as int), 8);
                reveal_with_fuel(two_pow, 9);
            }
            Ok(v as u8)
        },
        None => Err(Error::new(ErrorKind::UnexpectedEof)),
    }
}

/// Reads `n` bits, at most thirty-two; fails with `UnexpectedEof` when fewer
/// are left.
pub fn next_bits_u32(reader: &mut BitCursor<'_>, n: u32) -> (r: Result<u32, Error>)
    requires
        1 <= n <= 32,
    ensures
        match r {
            Ok(v) => unread_bits(*old(reader)).len() >= n && v == bits_value(unread_bits(*old(reader)).take(n as int))
                && unread_bits(*final(reader)) == unread_bits(*old(reader)).skip(n as int),
            Err(e) => unread_bits(*old(reader)).len() < n && e.kind == ErrorKind::UnexpectedEof,
        },
{
    match read_bits(reader, n) {
        Some(v) => Ok(v),
        None => Err(Error::new(ErrorKind::UnexpectedEof)),
    }
}

/// Two to the power `n`.
pub open spec fn two_pow(n: nat) -> nat
    decreases n,
{
    if n == 0 {
        1
    } else {
        2 * two_pow((n - 1) as nat)
    }
}

/// Up to `k` bits stand for a number below `2^k`.
pub proof fn lemma_bits_value_bound(bits: Seq<bool>, k: nat)
    requires
        bits.len() <= k,
    ensures
        bits_value(bits) < two_pow(k),
    decreases k,
{
    if k > 0 {
        if bits.len() == k {
            lemma_bits_value_bound(bits.drop_last(), (k - 1) as nat);
        } else {
            lemma_bits_value_bound(bits, (k - 1) as nat);
        }
    }
}

impl ProgramChangeChapter {
    /// Reads the chapter; fails with `UnexpectedEof` when fewer than 24 bits
    /// are left.
    pub fn from_reader(reader: &mut BitCursor<'_>) -> (r: Result<Self, Error>)
        ensures
            match spec_program_change(unread_bits(*old(reader))) {
                Some((c, rest)) => r matches Ok(v) && v == c && unread_bits(*final(reader)) == rest,
                None => r matches Err(e) && e.kind == ErrorKind::UnexpectedEof,
            },
    {
        let ghost b0 = unread_bits(*reader);
        let s = match next_bit(reader) {
            Ok(v) => v,
            Err(e) => return Err(e),
        };
        let program = match next_bits_u8(reader, 7) {
            Ok(v) => v,
            Err(e) => return Err(e),
        };
        assert(unread_bits(*reader) =~= b0.skip(8));
        assert(b0.skip(1).take(7) =~= b0.subrange(1, 8));
        let b = match next_bit(reader) {
            Ok(v) => v,
            Err(e) => return Err(e),
        };
        assert(b0.skip(8)[0] == b0[8]);
        assert(unread_bits(*reader) =~= b0.skip(9));
        let bank_msb = match next_bits_u8(reader, 7) {
            Ok(v) => v,
            Err(e) => return Err(e),
        };
        assert(unread_bits(*reader) =~= b0.skip(16));
        assert(b0.skip(9).take(7) =~= b0.subrange(9, 16));
        let x = match next_bit(reader) {
            Ok(v) => v,
            Err(e) => return Err(e),
        };
        assert(b0.skip(16)[0] == b0[16]);
        assert(unread_bits(*reader) =~= b0.skip(17));
        let bank_lsb = match next_bits_u8(reader, 7) {
            Ok(v) => v,
            Err(e) => return Err(e),
        };
        assert(unread_bits(*reader) =~= b0.skip(24));
        assert(b0.skip(17).take(7) =~= b0.subrange(17, 24));
        Ok(Self { s, program, b, bank_msb, x, bank_lsb })
    }
}

} // verus!
