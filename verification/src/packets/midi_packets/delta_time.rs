//! Writing delta times of any `u32` value, five bytes at most, and reading them
//! back from the front of a slice.
use crate::stream::ByteSink;
use crate::io::{Error, ErrorKind};
use crate::packet::midi_packet::delta_time::{
    lemma_byte_length_well_terminated, lemma_terminator_index, lemma_terminator_index_facts, lemma_vlq_push,
    lemma_well_terminated_byte_length, spec_byte_length, spec_continuation,
    terminator_index, vlq_value, well_terminated, DeltaTime,
};
use vstd::prelude::*;

verus! {

/// The number of bytes that the shortest encoding of `t` takes.
pub open spec fn vlq_size(t: nat) -> nat {
    if t <= 0x7f {
        1
    } else if t <= 0x3fff {
        2
    } else if t <= 0x1f_ffff {
        3
    } else if t <= 0x0fff_ffff {
        4
    } else {
        5
    }
}

/// `s` is the shortest encoding of `t`: seven bits of time per byte, the first
/// byte most significant, every byte but the last with its top bit set.
pub open spec fn is_vlq_encoding(s: Seq<u8>, t: nat) -> bool {
    &&& s.len() == vlq_size(t)
    &&& well_terminated(s)
    &&& vlq_value(s) == t
}

/// `t` shifted right by seven bits `j` times.
pub open spec fn shr7(t: u32, j: nat) -> u32 {
    if j == 0 {
        t
    } else if j == 1 {
        t >> 7
    } else if j == 2 {
        t >> 14
    } else if j == 3 {
        t >> 21
    } else if j == 4 {
        t >> 28
    } else {
        0
    }
}

/// The byte that carries the seven bits of `t` brought to the bottom by `i`
/// shifts, with the continuation bit unless `i` is zero.
pub open spec fn vlq_digit(t: u32, i: nat) -> u8 {
    ((shr7(t, i) % 0x80) + if i > 0 {
        0x80nat
    } else {
        0nat
    }) as u8
}

/// The shortest encoding of `t`: one byte per seven bits, most significant
/// first, every byte but the last with its continuation bit set.
pub open spec fn vlq_bytes(t: u32) -> Seq<u8> {
    Seq::new(vlq_size(t as nat), |j: int| vlq_digit(t, (vlq_size(t as nat) - 1 - j) as nat))
}

proof fn lemma_shr7_step(t: u32, j: nat)
    requires
        j < 5,
    ensures
        shr7(t, j + 1) == shr7(t, j) >> 7,
        shr7(t, j + 1) == shr7(t, j) / 0x80,
{
    let y = shr7(t, j);
    assert((t >> 7) >> 7 == t >> 14 && (t >> 14) >> 7 == t >> 21 && (t >> 21) >> 7 == t >> 28 && (t
        >> 28) >> 7 == 0 && y >> 7 == y / 0x80) by (bit_vector);
}

proof fn lemma_shr7_size(t: u32)
    ensures
        shr7(t, vlq_size(t as nat)) == 0,
        vlq_size(t as nat) > 1 ==> shr7(t, (vlq_size(t as nat) - 1) as nat) != 0,
        1 <= vlq_size(t as nat) <= 5,
{
    assert((t <= 0x7f ==> t >> 7 == 0) && (t > 0x7f && t <= 0x3fff ==> t >> 14 == 0 && t >> 7 != 0)
        && (t > 0x3fff && t <= 0x1f_ffff ==> t >> 21 == 0 && t >> 14 != 0) && (t > 0x1f_ffff && t
        <= 0x0fff_ffff ==> t >> 28 == 0 && t >> 21 != 0) && (t > 0x0fff_ffff ==> t >> 28 != 0))
        by (bit_vector);
}

/// Appending delta times to a byte buffer.
pub trait WriteDeltaTimeExt {
    /// The bytes that the buffer holds.
    spec fn spec_contents(&self) -> Seq<u8>;

    /// Whether `n` more bytes fit.
    spec fn spec_has_room(&self, n: nat) -> bool;

    /// Appends the shortest encoding of `delta_time`; returns its length.
    fn write_delta_time(&mut self, delta_time: u32) -> (r: Result<usize, Error>)
        requires
            old(self).spec_has_room(5),
        ensures
            r matches Ok(n) && n == vlq_size(delta_time as nat),
            final(self).spec_contents() == old(self).spec_contents() + vlq_bytes(delta_time),
    ;

    /// The number of bytes that the shortest encoding of `delta_time` takes.
    fn delta_time_size(delta_time: u32) -> (n: usize)
        ensures
            n == vlq_size(delta_time as nat),
    ;
}

/// The number of bytes that the shortest encoding of `delta_time` takes: one
/// byte per seven bits, at least one.
pub fn delta_time_size(delta_time: u32) -> (n: usize)
    ensures
        n == vlq_size(delta_time as nat),
{
    let mut size: usize = 0;
    let mut value = delta_time;
    proof {
        lemma_shr7_size(delta_time);
    }
    while value > 0
        invariant
            size <= 5,
            value == shr7(delta_time, size as nat),
            size > 0 ==> shr7(delta_time, (size - 1) as nat) != 0,
            shr7(delta_time, vlq_size(delta_time as nat)) == 0,
            vlq_size(delta_time as nat) > 1 ==> shr7(delta_time, (vlq_size(delta_time as nat) - 1) as nat) != 0,
            1 <= vlq_size(delta_time as nat) <= 5,
        decreases value,
    {
        proof {
            lemma_shr7_step(delta_time, size as nat);
        }
        size += 1;
        value >>= 7;
    }
    proof {
        // `size` is the first count of shifts that leaves nothing, as is the encoded length.
        let n = vlq_size(delta_time as nat);
        if size > 0 && size < n {
            lemma_shr7_zero_stays(delta_time, size as nat, (n - 1) as nat);
        }
        if size > n {
            lemma_shr7_zero_stays(delta_time, n, (size - 1) as nat);
        }
        if size == 0 {
            assert(delta_time == 0);
        }
    }
    if size == 0 {
        size = 1;
    }
    size
}

proof fn lemma_shr7_zero_stays(t: u32, i: nat, j: nat)
    requires
        i <= j,
        shr7(t, i) == 0,
    ensures
        shr7(t, j) == 0,
    decreases j - i,
{
    if i < j && i < 5 {
        lemma_shr7_step(t, i);
        lemma_shr7_zero_stays(t, i + 1, j);
    }
}

/// The encoding byte for the seven bits of `t` that `i` right shifts by seven
/// bring to the bottom, with the continuation bit unless it is the last.
fn vlq_byte(t: u32, i: usize) -> (b: u8)
    requires
        i < 5,
    ensures
        b == vlq_digit(t, i as nat),
{
    let shift: u32 = (i * 7) as u32;
    let y = t >> shift;
    assert(t >> 0u32 == t && ((y & 0x7F) as u8) == y % 0x80 && (((y & 0x7F) as u8) | 0x80) == y
        % 0x80 + 0x80) by (bit_vector);
    assert(y == shr7(t, i as nat));
    let mut byte = (y & 0x7F) as u8;
    if i > 0 {
        byte |= 0x80;
    }
    byte
}

/// Appends the shortest encoding of `delta_time` to `sink`; returns its length.
pub fn put_delta_time<W: ByteSink>(sink: &mut W, delta_time: u32) -> (n: usize)
    requires
        old(sink).sink_room() >= 5,
    ensures
        n == vlq_size(delta_time as nat),
        final(sink).sink_contents() == old(sink).sink_contents() + vlq_bytes(delta_time),
        final(sink).sink_room() == old(sink).sink_room() - vlq_size(delta_time as nat),
{
    let num_bytes = delta_time_size(delta_time);
    let ghost start = sink.sink_contents();
    let ghost room = sink.sink_room();
    proof {
        lemma_shr7_size(delta_time);
    }
    let mut i = num_bytes;
    while i > 0
        invariant
            i <= num_bytes == vlq_size(delta_time as nat) <= 5,
            room >= 5,
            sink.sink_room() == room - (num_bytes - i),
            sink.sink_contents() == start + vlq_bytes(delta_time).take(num_bytes - i),
        decreases i,
    {
        i -= 1;
        let byte = vlq_byte(delta_time, i);
        sink.put_byte(byte);
        assert(vlq_bytes(delta_time).take(num_bytes - i) =~= vlq_bytes(delta_time).take(num_bytes - i - 1).push(byte));
    }
    assert(vlq_bytes(delta_time).take(num_bytes as int) =~= vlq_bytes(delta_time));
    num_bytes
}

impl<W: ByteSink> WriteDeltaTimeExt for W {
    open spec fn spec_contents(&self) -> Seq<u8> {
        self.sink_contents()
    }

    open spec fn spec_has_room(&self, n: nat) -> bool {
        self.sink_room() >= n
    }

    fn write_delta_time(&mut self, delta_time: u32) -> (r: Result<usize, Error>) {
        Ok(put_delta_time(self, delta_time))
    }

    fn delta_time_size(delta_time: u32) -> (n: usize) {
        delta_time_size(delta_time)
    }
}

/// What `read_delta_time` gives for `bytes`: the time of the bytes up to and
/// including the first one with its top bit clear, and the bytes after them,
/// when that byte is among the first four; else `UnexpectedEof` when the input
/// ends before four bytes, or `InvalidData`.
pub open spec fn spec_read_delta_time(bytes: Seq<u8>) -> Result<(nat, Seq<u8>), ErrorKind> {
    match spec_byte_length(bytes) {
        Some(n) => Ok((vlq_value(bytes.take(n as int)), bytes.skip(n as int))),
        None => if bytes.len() < 4 && terminator_index(bytes) is None {
            Err(ErrorKind::UnexpectedEof)
        } else {
            Err(ErrorKind::InvalidData)
        },
    }
}

/// Reads the delta time at the front of `bytes` and returns it with the bytes
/// that follow it. Fails with `UnexpectedEof` when the input ends inside the
/// delta time, and with `InvalidData` when none of the first four bytes ends it.
pub fn read_delta_time(bytes: &[u8]) -> (r: Result<(u32, &[u8]), Error>)
    ensures
        match spec_read_delta_time(bytes@) {
            Ok((t, rest)) => r matches Ok((v, s)) && v == t && s@ == rest,
            Err(k) => r matches Err(e) && e.kind == k,
        },
{
    proof {
        lemma_byte_length_well_terminated(bytes@);
        lemma_terminator_index_facts(bytes@);
    }
    match DeltaTime::delta_time_byte_length(bytes) {
        Ok(n) => {
            let head = &bytes[0..n];
            assert(head@ =~= bytes@.take(n as int));
            let t = DeltaTime::decode(head);
            let rest = &bytes[n..bytes.len()];
            assert(rest@ =~= bytes@.skip(n as int));
            Ok((t, rest))
        },
        Err(e) => {
            if bytes.len() < 4 {
                let mut i: usize = 0;
                while i < bytes.len()
                    invariant
                        i <= bytes@.len() < 4,
                        spec_byte_length(bytes@) is None,
                        terminator_index(bytes@) matches Some(k) ==> k < bytes@.len() && !spec_continuation(bytes@[k as int]) && forall|j: int| 0 <= j < k ==> spec_continuation(#[trigger] bytes@[j]),
                        forall|j: int| 0 <= j < i ==> spec_continuation(#[trigger] bytes@[j]),
                    decreases bytes@.len() - i,
                {
                    if bytes[i] < 0x80 {
                        proof {
                            lemma_terminator_index(bytes@, i as int);
                        }
                        return Err(Error::new(ErrorKind::InvalidData));
                    }
                    i = i + 1;
                }
                return Err(Error::new(ErrorKind::UnexpectedEof));
            }
            Err(e)
        },
    }
}

/// A delta time written by `write_delta_time` reads back as the same time,
/// whatever follows it, when it fits in 28 bits.
pub proof fn lemma_write_then_read(t: u32, rest: Seq<u8>)
    requires
        t <= 0x0fff_ffff,
    ensures
        spec_read_delta_time(vlq_bytes(t) + rest) == Ok::<(nat, Seq<u8>), ErrorKind>((t as nat, rest)),
{
    lemma_vlq_bytes(t);
    lemma_well_terminated_byte_length(vlq_bytes(t), rest);
    assert((vlq_bytes(t) + rest).skip(vlq_bytes(t).len() as int) =~= rest);
}

/// The first `k` bytes of the encoding of `t` stand for `t` without its last
/// `vlq_size(t) - k` groups of seven bits.
proof fn lemma_vlq_bytes_prefix(t: u32, k: nat)
    requires
        k <= vlq_size(t as nat),
    ensures
        vlq_value(vlq_bytes(t).take(k as int)) == shr7(t, (vlq_size(t as nat) - k) as nat),
    decreases k,
{
    let n = vlq_size(t as nat);
    lemma_shr7_size(t);
    if k == 0 {
        assert(vlq_bytes(t).take(0) =~= Seq::<u8>::empty());
    } else {
        lemma_vlq_bytes_prefix(t, (k - 1) as nat);
        let i = (n - k) as nat;
        let b = vlq_bytes(t)[k - 1];
        assert(vlq_bytes(t).take(k as int) =~= vlq_bytes(t).take(k - 1).push(b));
        lemma_vlq_push(vlq_bytes(t).take(k - 1), b);
        lemma_shr7_step(t, i);
        assert(b == vlq_digit(t, i));
    }
}

/// The bytes that `write_delta_time` appends are the shortest encoding of the time.
pub proof fn lemma_vlq_bytes(t: u32)
    ensures
        is_vlq_encoding(vlq_bytes(t), t as nat),
{
    let n = vlq_size(t as nat);
    lemma_vlq_bytes_prefix(t, n);
    assert(vlq_bytes(t).take(n as int) =~= vlq_bytes(t));
    assert forall|j: int| 0 <= j < n - 1 implies spec_continuation(#[trigger] vlq_bytes(t)[j]) by {
        assert(vlq_bytes(t)[j] == vlq_digit(t, (n - 1 - j) as nat));
    }
    assert(vlq_bytes(t)[n - 1] == vlq_digit(t, 0));
}

} // verus!
