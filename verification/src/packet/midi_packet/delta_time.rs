//! The variable-length delta time of the MIDI command list, kept as its encoded bytes.
use crate::endian::copy_prefix;
use crate::io::{Error, ErrorKind};
use crate::byte_facts::lemma_byte_bits;
use vstd::prelude::*;

verus! {

/// A delta time as one to four bytes: seven bits of time in each, every byte but
/// the last with its continuation bit set.
#[derive(Clone, Copy, PartialEq, Eq, Debug)]
pub enum DeltaTime {
    OneByte([u8; 1]),
    TwoByte([u8; 2]),
    ThreeByte([u8; 3]),
    FourByte([u8; 4]),
}

/// The two halves of a delta-time byte.
pub trait DeltaTimeChunkExt {
    fn continuation(&self) -> bool;

    fn time(&self) -> u8;
}

pub const CONTINUATION_MASK: u8 = 0b1000_0000;

pub const TIME_MASK: u8 = 0b0111_1111;

pub const U28_MAX: u32 = 0b0000_1111_1111_1111_1111_1111_1111_1111;

pub const U21_MAX: u32 = 0b0000_0000_0001_1111_1111_1111_1111_1111;

pub const U14_MAX: u32 = 0b0000_0000_0000_0000_0011_1111_1111_1111;

/// The continuation bit of a byte is its top bit.
pub open spec fn spec_continuation(b: u8) -> bool {
    b >= 0x80
}

/// The seven time bits of a byte.
pub open spec fn spec_chunk_time(b: u8) -> nat {
    (b % 0x80) as nat
}

impl DeltaTimeChunkExt for u8 {
    fn continuation(&self) -> (r: bool)
        ensures
            r == spec_continuation(*self),
    {
        let b = *self;
        assert(b & 0x80 != 0 <==> b >= 0x80) by { lemma_byte_bits(); }
        *self & CONTINUATION_MASK != 0
    }

    fn time(&self) -> (r: u8)
        ensures
            r == spec_chunk_time(*self),
    {
        let b = *self;
        assert(b & 0x7f == b % 0x80) by { lemma_byte_bits(); }
        *self & TIME_MASK
    }
}

/// The time that a run of delta-time bytes stands for: seven bits from each
/// byte, the first byte most significant.
pub open spec fn vlq_value(s: Seq<u8>) -> nat
    decreases s.len(),
{
    if s.len() == 0 {
        0
    } else {
        vlq_value(s.drop_last()) * 0x80 + spec_chunk_time(s.last())
    }
}

/// Every byte but the last has its continuation bit set, and the last has it clear.
pub open spec fn well_terminated(s: Seq<u8>) -> bool {
    &&& s.len() > 0
    &&& forall|i: int| 0 <= i < s.len() - 1 ==> spec_continuation(#[trigger] s[i])
    &&& !spec_continuation(s.last())
}

/// The index of the first byte whose continuation bit is clear, if there is one.
pub open spec fn terminator_index(s: Seq<u8>) -> Option<nat>
    decreases s.len(),
{
    if s.len() == 0 {
        None
    } else if !spec_continuation(s[0]) {
        Some(0)
    } else {
        match terminator_index(s.drop_first()) {
            Some(k) => Some(k + 1),
            None => None,
        }
    }
}

/// The length of the delta time at the front of `s`: up to and including the
/// first byte with a clear continuation bit, if that is within four bytes.
pub open spec fn spec_byte_length(s: Seq<u8>) -> Option<nat> {
    match terminator_index(s) {
        Some(k) => if k <= 3 { Some(k + 1) } else { None },
        None => None,
    }
}

/// The number of bytes that the shortest encoding of `t` takes.
pub open spec fn min_byte_length(t: nat) -> nat {
    if t <= 0x7f {
        1
    } else if t <= 0x3fff {
        2
    } else if t <= 0x1f_ffff {
        3
    } else {
        4
    }
}

/// Adding a byte at the end multiplies the time by 128 and adds the byte's seven bits.
pub proof fn lemma_vlq_push(s: Seq<u8>, b: u8)
    ensures
        vlq_value(s.push(b)) == vlq_value(s) * 0x80 + spec_chunk_time(b),
{
    assert(s.push(b).drop_last() =~= s);
}

/// The time of one to four bytes, written out.
pub proof fn lemma_vlq_small(s: Seq<u8>)
    requires
        1 <= s.len() <= 4,
    ensures
        s.len() == 1 ==> vlq_value(s) == spec_chunk_time(s[0]),
        s.len() == 2 ==> vlq_value(s) == spec_chunk_time(s[0]) * 0x80 + spec_chunk_time(s[1]),
        s.len() == 3 ==> vlq_value(s) == spec_chunk_time(s[0]) * 0x4000 + spec_chunk_time(s[1])
            * 0x80 + spec_chunk_time(s[2]),
        s.len() == 4 ==> vlq_value(s) == spec_chunk_time(s[0]) * 0x20_0000 + spec_chunk_time(s[1])
            * 0x4000 + spec_chunk_time(s[2]) * 0x80 + spec_chunk_time(s[3]),
{
    let e = Seq::<u8>::empty();
    assert(vlq_value(e) == 0);
    lemma_vlq_push(e, s[0]);
    assert(e.push(s[0]) =~= s.take(1));
    if s.len() >= 2 {
        lemma_vlq_push(s.take(1), s[1]);
        assert(s.take(1).push(s[1]) =~= s.take(2));
    }
    if s.len() >= 3 {
        lemma_vlq_push(s.take(2), s[2]);
        assert(s.take(2).push(s[2]) =~= s.take(3));
    }
    if s.len() >= 4 {
        lemma_vlq_push(s.take(3), s[3]);
        assert(s.take(3).push(s[3]) =~= s.take(4));
    }
    assert(s.take(s.len() as int) =~= s);
}

/// `terminator_index` finds the first byte with a clear continuation bit.
pub proof fn lemma_terminator_index(s: Seq<u8>, i: int)
    requires
        0 <= i <= s.len(),
        forall|j: int| 0 <= j < i ==> spec_continuation(#[trigger] s[j]),
    ensures
        i < s.len() && !spec_continuation(s[i]) ==> terminator_index(s) == Some(i as nat),
        i == s.len() ==> terminator_index(s) is None,
    decreases i,
{
    if i > 0 {
        let t = s.drop_first();
        assert forall|j: int| 0 <= j < i - 1 implies spec_continuation(#[trigger] t[j]) by {
            assert(t[j] == s[j + 1]);
        }
        lemma_terminator_index(t, i - 1);
        if i < s.len() {
            assert(t[i - 1] == s[i]);
        }
    }
}

/// The first byte with a clear continuation bit is at `terminator_index`, and
/// every byte before it has the bit set.
pub proof fn lemma_terminator_index_facts(s: Seq<u8>)
    ensures
        terminator_index(s) matches Some(k) ==> k < s.len() && !spec_continuation(s[k as int])
            && forall|j: int| 0 <= j < k ==> spec_continuation(#[trigger] s[j]),
    decreases s.len(),
{
    if s.len() > 0 && spec_continuation(s[0]) {
        let t = s.drop_first();
        lemma_terminator_index_facts(t);
        if let Some(k) = terminator_index(t) {
            assert forall|j: int| 0 <= j < k + 1 implies spec_continuation(#[trigger] s[j]) by {
                if j > 0 {
                    assert(s[j] == t[j - 1]);
                }
            }
        }
    }
}

/// A delta time that parses has proper continuation bits.
pub proof fn lemma_byte_length_well_terminated(s: Seq<u8>)
    ensures
        spec_byte_length(s) matches Some(n) ==> 1 <= n <= 4 && n <= s.len() && well_terminated(
            s.take(n as int),
        ),
{
    lemma_terminator_index_facts(s);
    if let Some(n) = spec_byte_length(s) {
        let t = s.take(n as int);
        assert forall|i: int| 0 <= i < t.len() - 1 implies spec_continuation(#[trigger] t[i]) by {
            assert(t[i] == s[i]);
        }
    }
}

/// A well-formed delta time, whatever follows it, is read back as exactly its own bytes.
pub proof fn lemma_well_terminated_byte_length(d: Seq<u8>, rest: Seq<u8>)
    requires
        well_terminated(d),
        d.len() <= 4,
    ensures
        spec_byte_length(d + rest) == Some(d.len()),
        (d + rest).take(d.len() as int) == d,
{
    let s = d + rest;
    assert forall|j: int| 0 <= j < d.len() - 1 implies spec_continuation(#[trigger] s[j]) by {
        assert(s[j] == d[j]);
    }
    assert(s[d.len() - 1] == d.last());
    lemma_terminator_index(s, d.len() - 1);
    assert(s.take(d.len() as int) =~= d);
}

impl DeltaTime {
    /// The encoded bytes.
    pub open spec fn bytes(self) -> Seq<u8> {
        match self {
            DeltaTime::OneByte(a) => a@,
            DeltaTime::TwoByte(a) => a@,
            DeltaTime::ThreeByte(a) => a@,
            DeltaTime::FourByte(a) => a@,
        }
    }

    /// The time that the bytes stand for.
    pub open spec fn spec_time(self) -> nat {
        vlq_value(self.bytes())
    }

    /// The bytes are a proper delta time: continuation bits set on all but the last.
    pub open spec fn wf(self) -> bool {
        well_terminated(self.bytes())
    }

    /// Two delta times with the same bytes are the same.
    pub proof fn lemma_bytes_determine(self, other: DeltaTime)
        requires
            self.bytes() == other.bytes(),
        ensures
            self == other,
    {
        broadcast use vstd::array::group_array_axioms;

        let n = self.bytes().len();
        assert(other.bytes().len() == n);
        match self {
            DeltaTime::OneByte(a) => {
                if let DeltaTime::OneByte(b) = other {
                    assert(forall|i: int| 0 <= i < 1 ==> a@[i] == #[trigger] b@[i]);
                    assert(a =~= b);
                }
            },
            DeltaTime::TwoByte(a) => {
                if let DeltaTime::TwoByte(b) = other {
                    assert(forall|i: int| 0 <= i < 2 ==> a@[i] == #[trigger] b@[i]);
                    assert(a =~= b);
                }
            },
            DeltaTime::ThreeByte(a) => {
                if let DeltaTime::ThreeByte(b) = other {
                    assert(forall|i: int| 0 <= i < 3 ==> a@[i] == #[trigger] b@[i]);
                    assert(a =~= b);
                }
            },
            DeltaTime::FourByte(a) => {
                if let DeltaTime::FourByte(b) = other {
                    assert(forall|i: int| 0 <= i < 4 ==> a@[i] == #[trigger] b@[i]);
                    assert(a =~= b);
                }
            },
        }
    }

    pub fn zero() -> (d: DeltaTime)
        ensures
            d.bytes() == seq![0u8],
            d.wf(),
            d.spec_time() == 0,
    {
        let d = DeltaTime::OneByte([0]);
        assert(d.bytes() =~= seq![0u8]);
        proof {
            lemma_vlq_small(d.bytes());
        }
        d
    }

    /// The shortest encoding of `delta_time`. The time must fit in 28 bits.
    #[verifier::spinoff_prover]
    pub fn new(delta_time: u32) -> (d: DeltaTime)
        requires
            delta_time <= U28_MAX,
        ensures
            d.wf(),
            d.spec_time() == delta_time,
            d.bytes().len() == min_byte_length(delta_time as nat),
    {
        let t = delta_time;
        if t <= TIME_MASK as u32 {
            let d = DeltaTime::OneByte([t as u8]);
            proof {
                assert(d.bytes().drop_last() =~= Seq::<u8>::empty());
                assert(d.bytes().last() == t as u8);
                lemma_vlq_small(d.bytes());
            }
            d
        } else if t <= U14_MAX {
            let b1 = ((t >> 7) as u8) | CONTINUATION_MASK;
            let b2 = (t & TIME_MASK as u32) as u8;
            assert(b1 >= 0x80 && b1 % 0x80 == t / 0x80 && b2 < 0x80 && b2 == t % 0x80) by (bit_vector)
                requires
                    t <= 0x3fff,
                    b1 == ((t >> 7) as u8) | 0x80u8,
                    b2 == (t & 0x7f) as u8,
            ;
            let d = DeltaTime::TwoByte([b1, b2]);
            proof {
                let s = d.bytes();
                assert(s.drop_last().drop_last() =~= Seq::<u8>::empty());
                assert(s.drop_last() =~= seq![b1]);
                lemma_vlq_small(s);
            }
            d
        } else if t <= U21_MAX {
            let b1 = ((t >> 14) as u8) | CONTINUATION_MASK;
            let b2 = (((t >> 7) & TIME_MASK as u32) as u8) | CONTINUATION_MASK;
            let b3 = (t & TIME_MASK as u32) as u8;
            assert(b1 >= 0x80 && b2 >= 0x80 && b3 < 0x80 && b1 % 0x80 == t / 0x4000 && b2 % 0x80 == (t
                / 0x80) % 0x80 && b3 == t % 0x80) by (bit_vector)
                requires
                    t <= 0x1f_ffff,
                    b1 == ((t >> 14) as u8) | 0x80u8,
                    b2 == (((t >> 7) & 0x7f) as u8) | 0x80u8,
                    b3 == (t & 0x7f) as u8,
            ;
            let d = DeltaTime::ThreeByte([b1, b2, b3]);
            proof {
                let s = d.bytes();
                assert(s.drop_last().drop_last().drop_last() =~= Seq::<u8>::empty());
                assert(s.drop_last().drop_last() =~= seq![b1]);
                assert(s.drop_last() =~= seq![b1, b2]);
                lemma_vlq_small(s);
            }
            d
        } else {
            let b1 = ((t >> 21) as u8) | CONTINUATION_MASK;
            let b2 = (((t >> 14) & TIME_MASK as u32) as u8) | CONTINUATION_MASK;
            let b3 = (((t >> 7) & TIME_MASK as u32) as u8) | CONTINUATION_MASK;
            let b4 = (t & TIME_MASK as u32) as u8;
            assert(b1 >= 0x80 && b2 >= 0x80 && b3 >= 0x80 && b4 < 0x80 && b1 % 0x80 == t / 0x20_0000
                && b2 % 0x80 == (t / 0x4000) % 0x80 && b3 % 0x80 == (t / 0x80) % 0x80 && b4 == t
                % 0x80) by (bit_vector)
                requires
                    t <= 0x0fff_ffff,
                    b1 == ((t >> 21) as u8) | 0x80u8,
                    b2 == (((t >> 14) & 0x7f) as u8) | 0x80u8,
                    b3 == (((t >> 7) & 0x7f) as u8) | 0x80u8,
                    b4 == (t & 0x7f) as u8,
            ;
            let d = DeltaTime::FourByte([b1, b2, b3, b4]);
            proof {
                let s = d.bytes();
                assert(s.drop_last().drop_last().drop_last().drop_last() =~= Seq::<u8>::empty());
                assert(s.drop_last().drop_last().drop_last() =~= seq![b1]);
                assert(s.drop_last().drop_last() =~= seq![b1, b2]);
                assert(s.drop_last() =~= seq![b1, b2, b3]);
                lemma_vlq_small(s);
            }
            d
        }
    }
}

impl DeltaTime {
    /// The time that the bytes stand for.
    pub fn time(&self) -> (t: u32)
        ensures
            t == self.spec_time(),
    {
        match self {
            DeltaTime::OneByte(arr) => DeltaTime::decode(arr.as_slice()),
            DeltaTime::TwoByte(arr) => DeltaTime::decode(arr.as_slice()),
            DeltaTime::ThreeByte(arr) => DeltaTime::decode(arr.as_slice()),
            DeltaTime::FourByte(arr) => DeltaTime::decode(arr.as_slice()),
        }
    }

    pub(crate) fn decode(arr: &[u8]) -> (time: u32)
        requires
            1 <= arr@.len() <= 4,
        ensures
            time == vlq_value(arr@),
    {
        let mut time: u32 = 0;
        let mut i: usize = 0;
        assert(arr@.take(0) =~= Seq::<u8>::empty());
        while i < arr.len()
            invariant
                i <= arr@.len() <= 4,
                time == vlq_value(arr@.take(i as int)),
                i == 0 ==> time == 0,
                i <= 1 ==> time < 0x80,
                i <= 2 ==> time < 0x4000,
                i <= 3 ==> time < 0x20_0000,
            decreases arr@.len() - i,
        {
            let c = arr[i];
            let t = time;
            assert(((t << 7u32) | ((c & 0x7f) as u32)) == t * 0x80 + c % 0x80 && c % 0x80 < 0x80)
                by (bit_vector)
                requires
                    t < 0x20_0000,
            ;
            proof {
                lemma_vlq_push(arr@.take(i as int), c);
                assert(arr@.take(i as int).push(c) =~= arr@.take(i + 1));
            }
            time = (time << 7u32) | ((c & TIME_MASK) as u32);
            i = i + 1;
        }
        assert(arr@.take(i as int) =~= arr@);
        time
    }

    /// The number of encoded bytes.
    pub fn size(&self) -> (n: usize)
        ensures
            n == self.bytes().len(),
            1 <= n <= 4,
    {
        match self {
            DeltaTime::OneByte(_) => 1,
            DeltaTime::TwoByte(_) => 2,
            DeltaTime::ThreeByte(_) => 3,
            DeltaTime::FourByte(_) => 4,
        }
    }

    /// The length of the delta time at the front of `bytes`: up to and including
    /// the first byte whose continuation bit is clear. Fails with `InvalidData`
    /// when that byte is past the fourth, or when there is none.
    pub fn delta_time_byte_length(bytes: &[u8]) -> (r: Result<usize, Error>)
        ensures
            match r {
                Ok(n) => spec_byte_length(bytes@) == Some(n as nat),
                Err(e) => spec_byte_length(bytes@) is None && e.kind == ErrorKind::InvalidData,
            },
    {
        let mut i: usize = 0;
        while i < bytes.len()
            invariant
                i <= bytes@.len(),
                forall|j: int| 0 <= j < i ==> spec_continuation(#[trigger] bytes@[j]),
            decreases bytes@.len() - i,
        {
            if !bytes[i].continuation() {
                proof {
                    lemma_terminator_index(bytes@, i as int);
                }
                if i > 3 {
                    return Err(Error::new(ErrorKind::InvalidData));
                }
                return Ok(i + 1);
            }
            i = i + 1;
        }
        proof {
            lemma_terminator_index(bytes@, i as int);
        }
        Err(Error::new(ErrorKind::InvalidData))
    }

    /// Reads the delta time at the front of `bytes`. Fails with `UnexpectedEof` on
    /// empty input and with `InvalidData` when no byte among the first four ends it.
    pub fn from_be_bytes(bytes: &[u8]) -> (r: Result<DeltaTime, Error>)
        ensures
            match r {
                Ok(d) => {
                    &&& spec_byte_length(bytes@) == Some(d.bytes().len())
                    &&& d.bytes() == bytes@.take(d.bytes().len() as int)
                    &&& d.wf()
                },
                Err(e) => {
                    &&& spec_byte_length(bytes@) is None
                    &&& bytes@.len() == 0 ==> e.kind == ErrorKind::UnexpectedEof
                    &&& bytes@.len() > 0 ==> e.kind == ErrorKind::InvalidData
                },
            },
    {
        if bytes.is_empty() {
            return Err(Error::new(ErrorKind::UnexpectedEof));
        }
        let length = match Self::delta_time_byte_length(bytes) {
            Ok(n) => n,
            Err(e) => return Err(e),
        };
        proof {
            lemma_byte_length_well_terminated(bytes@);
        }
        let d = if length == 1 {
            DeltaTime::OneByte([bytes[0]])
        } else if length == 2 {
            DeltaTime::TwoByte([bytes[0], bytes[1]])
        } else if length == 3 {
            DeltaTime::ThreeByte([bytes[0], bytes[1], bytes[2]])
        } else {
            DeltaTime::FourByte([bytes[0], bytes[1], bytes[2], bytes[3]])
        };
        assert(d.bytes() =~= bytes@.take(length as int));
        Ok(d)
    }

    /// Writes the bytes at the front of `bytes`. Fails with `WriteZero`, leaving
    /// `bytes` as it was, when they do not fit.
    pub fn write_to_bytes(&self, bytes: &mut [u8]) -> (r: Result<usize, Error>)
        ensures
            match r {
                Ok(n) => {
                    &&& n == self.bytes().len()
                    &&& old(bytes)@.len() >= n
                    &&& final(bytes)@ == self.bytes() + old(bytes)@.skip(n as int)
                },
                Err(e) => {
                    &&& old(bytes)@.len() < self.bytes().len()
                    &&& e.kind == ErrorKind::WriteZero
                    &&& final(bytes)@ == old(bytes)@
                },
            },
    {
        let arr: &[u8] = match self {
            DeltaTime::OneByte(a) => a.as_slice(),
            DeltaTime::TwoByte(a) => a.as_slice(),
            DeltaTime::ThreeByte(a) => a.as_slice(),
            DeltaTime::FourByte(a) => a.as_slice(),
        };
        if bytes.len() < arr.len() {
            return Err(Error::new(ErrorKind::WriteZero));
        }
        copy_prefix(bytes, arr);
        Ok(arr.len())
    }
}

/// Writing a well-formed delta time and reading it back gives the same delta
/// time, whatever bytes follow it.
pub proof fn lemma_write_then_read(d: DeltaTime, rest: Seq<u8>)
    requires
        d.wf(),
    ensures
        spec_byte_length(d.bytes() + rest) == Some(d.bytes().len()),
        (d.bytes() + rest).take(d.bytes().len() as int) == d.bytes(),
{
    lemma_well_terminated_byte_length(d.bytes(), rest);
}

} // verus!
