//! A reader over owned bytes with a position, and appending writers over `Vec<u8>`,
//! for the formats that are read and written as streams.
use crate::endian::{be_u16_value, be_u32_value, be_u64_value, u16_be_bytes, u32_be_bytes, u64_be_bytes};
use crate::buffer::{bytes_mut_contents, bytes_mut_limit, extend_from_slice, put_u8};
use crate::io::{Error, ErrorKind};
use bytes::BytesMut;
use vstd::prelude::*;

verus! {

/// Bytes and a position in them; reads take bytes from the position on.
pub struct ByteReader {
    data: Vec<u8>,
    pos: usize,
}

impl ByteReader {
    pub closed spec fn spec_data(&self) -> Seq<u8> {
        self.data@
    }

    pub closed spec fn spec_pos(&self) -> nat {
        self.pos as nat
    }

    /// The bytes not yet read.
    pub open spec fn rest(&self) -> Seq<u8> {
        self.spec_data().skip(self.spec_pos() as int)
    }

    pub open spec fn wf(&self) -> bool {
        self.spec_pos() <= self.spec_data().len()
    }

    pub fn new(data: Vec<u8>) -> (r: Self)
        ensures
            r.spec_data() == data@,
            r.spec_pos() == 0,
            r.wf(),
            r.rest() == data@,
    {
        let r = ByteReader { data, pos: 0 };
        assert(r.rest() =~= data@);
        r
    }

    pub fn position(&self) -> (p: usize)
        ensures
            p == self.spec_pos(),
    {
        self.pos
    }

    /// Reads one byte. Fails with `UnexpectedEof`, moving nothing, at the end.
    pub fn read_u8(&mut self) -> (r: Result<u8, Error>)
        requires
            old(self).wf(),
        ensures
            final(self).wf(),
            final(self).spec_data() == old(self).spec_data(),
            match r {
                Ok(b) => {
                    &&& old(self).rest().len() >= 1
                    &&& b == old(self).rest()[0]
                    &&& final(self).spec_pos() == old(self).spec_pos() + 1
                    &&& final(self).rest() == old(self).rest().skip(1)
                },
                Err(e) => {
                    &&& old(self).rest().len() == 0
                    &&& e.kind == ErrorKind::UnexpectedEof
                    &&& final(self).spec_pos() == old(self).spec_pos()
                },
            },
    {
        if self.pos >= self.data.len() {
            return Err(Error::new(ErrorKind::UnexpectedEof));
        }
        let b = self.data[self.pos];
        self.pos = self.pos + 1;
        assert(self.rest() =~= old(self).rest().skip(1));
        Ok(b)
    }

    /// Takes the next `n` bytes. Fails with `UnexpectedEof`, moving nothing,
    /// when fewer are left.
    fn take(&mut self, n: usize) -> (r: Result<&[u8], Error>)
        requires
            old(self).wf(),
        ensures
            final(self).wf(),
            final(self).spec_data() == old(self).spec_data(),
            match r {
                Ok(s) => {
                    &&& old(self).rest().len() >= n
                    &&& s@ == old(self).rest().take(n as int)
                    &&& final(self).spec_pos() == old(self).spec_pos() + n
                    &&& final(self).rest() == old(self).rest().skip(n as int)
                },
                Err(e) => {
                    &&& old(self).rest().len() < n
                    &&& e.kind == ErrorKind::UnexpectedEof
                    &&& final(self).spec_pos() == old(self).spec_pos()
                },
            },
    {
        if self.data.len() - self.pos < n {
            return Err(Error::new(ErrorKind::UnexpectedEof));
        }
        let start = self.pos;
        self.pos = self.pos + n;
        let s = &self.data.as_slice()[start..start + n];
        assert(s@ =~= old(self).rest().take(n as int));
        assert(self.rest() =~= old(self).rest().skip(n as int));
        Ok(s)
    }

    /// Reads two bytes as a big-endian number.
    pub fn read_u16_be(&mut self) -> (r: Result<u16, Error>)
        requires
            old(self).wf(),
        ensures
            final(self).wf(),
            final(self).spec_data() == old(self).spec_data(),
            match r {
                Ok(v) => {
                    &&& old(self).rest().len() >= 2
                    &&& v == be_u16_value(old(self).rest())
                    &&& final(self).rest() == old(self).rest().skip(2)
                },
                Err(e) => old(self).rest().len() < 2 && e.kind == ErrorKind::UnexpectedEof,
            },
    {
        let s = match self.take(2) {
            Ok(s) => s,
            Err(e) => return Err(e),
        };
        Ok(crate::endian::read_u16_be(s))
    }

    /// Reads four bytes as a big-endian number.
    pub fn read_u32_be(&mut self) -> (r: Result<u32, Error>)
        requires
            old(self).wf(),
        ensures
            final(self).wf(),
            final(self).spec_data() == old(self).spec_data(),
            match r {
                Ok(v) => {
                    &&& old(self).rest().len() >= 4
                    &&& v == be_u32_value(old(self).rest())
                    &&& final(self).rest() == old(self).rest().skip(4)
                },
                Err(e) => old(self).rest().len() < 4 && e.kind == ErrorKind::UnexpectedEof,
            },
    {
        let s = match self.take(4) {
            Ok(s) => s,
            Err(e) => return Err(e),
        };
        Ok(crate::endian::read_u32_be(s))
    }

    /// Reads eight bytes as a big-endian number.
    pub fn read_u64_be(&mut self) -> (r: Result<u64, Error>)
        requires
            old(self).wf(),
        ensures
            final(self).wf(),
            final(self).spec_data() == old(self).spec_data(),
            match r {
                Ok(v) => {
                    &&& old(self).rest().len() >= 8
                    &&& v == be_u64_value(old(self).rest())
                    &&& final(self).rest() == old(self).rest().skip(8)
                },
                Err(e) => old(self).rest().len() < 8 && e.kind == ErrorKind::UnexpectedEof,
            },
    {
        let s = match self.take(8) {
            Ok(s) => s,
            Err(e) => return Err(e),
        };
        proof {
            assert(s@.skip(4) =~= old(self).rest().skip(4).take(4));
        }
        let v = crate::endian::read_u64_be(s);
        assert(be_u64_value(s@) == be_u64_value(old(self).rest())) by {
            assert(s@.skip(4)[0] == old(self).rest().skip(4)[0]);
            assert(s@.skip(4)[1] == old(self).rest().skip(4)[1]);
            assert(s@.skip(4)[2] == old(self).rest().skip(4)[2]);
            assert(s@.skip(4)[3] == old(self).rest().skip(4)[3]);
        }
        Ok(v)
    }
}

/// Appends `bytes` to `out`.
pub fn put_slice(out: &mut Vec<u8>, bytes: &[u8])
    ensures
        final(out)@ == old(out)@ + bytes@,
{
    let mut i: usize = 0;
    while i < bytes.len()
        invariant
            i <= bytes@.len(),
            out@ == old(out)@ + bytes@.take(i as int),
        decreases bytes@.len() - i,
    {
        out.push(bytes[i]);
        i = i + 1;
        assert(out@ =~= old(out)@ + bytes@.take(i as int));
    }
    assert(bytes@.take(i as int) =~= bytes@);
}

/// Appends the two bytes of `n`, most significant first.
pub fn put_u16_be<W: ByteSink>(out: &mut W, n: u16)
    requires
        old(out).sink_room() >= 2,
    ensures
        final(out).sink_contents() == old(out).sink_contents() + u16_be_bytes(n),
        final(out).sink_room() == old(out).sink_room() - 2,
{
    let mut b = [0u8; 2];
    crate::endian::write_u16_be(&mut b, n);
    assert(b@ =~= u16_be_bytes(n));
    out.put_bytes(b.as_slice());
}

/// Appends the four bytes of `n`, most significant first.
pub fn put_u32_be<W: ByteSink>(out: &mut W, n: u32)
    requires
        old(out).sink_room() >= 4,
    ensures
        final(out).sink_contents() == old(out).sink_contents() + u32_be_bytes(n),
        final(out).sink_room() == old(out).sink_room() - 4,
{
    let mut b = [0u8; 4];
    crate::endian::write_u32_be(&mut b, n);
    assert(b@ =~= u32_be_bytes(n));
    out.put_bytes(b.as_slice());
}

/// Appends the eight bytes of `n`, most significant first.
pub fn put_u64_be<W: ByteSink>(out: &mut W, n: u64)
    requires
        old(out).sink_room() >= 8,
    ensures
        final(out).sink_contents() == old(out).sink_contents() + u64_be_bytes(n),
        final(out).sink_room() == old(out).sink_room() - 8,
{
    let mut b = [0u8; 8];
    crate::endian::write_u64_be(&mut b, n);
    assert(b@ =~= u64_be_bytes(n));
    out.put_bytes(b.as_slice());
}

/// A growable buffer that bytes are appended to.
pub trait ByteSink {
    /// The bytes held.
    spec fn sink_contents(&self) -> Seq<u8>;

    /// How many more bytes can be appended.
    spec fn sink_room(&self) -> nat;

    /// Appends one byte.
    fn put_byte(&mut self, b: u8)
        requires
            old(self).sink_room() >= 1,
        ensures
            final(self).sink_contents() == old(self).sink_contents().push(b),
            final(self).sink_room() == old(self).sink_room() - 1,
    ;

    /// Appends the bytes of `s`.
    fn put_bytes(&mut self, s: &[u8])
        requires
            old(self).sink_room() >= s@.len(),
        ensures
            final(self).sink_contents() == old(self).sink_contents() + s@,
            final(self).sink_room() == old(self).sink_room() - s@.len(),
    ;
}

impl ByteSink for Vec<u8> {
    open spec fn sink_contents(&self) -> Seq<u8> {
        self@
    }

    /// A `Vec<u8>` holds at most `isize::MAX` bytes.
    open spec fn sink_room(&self) -> nat {
        if self@.len() <= isize::MAX {
            (isize::MAX - self@.len()) as nat
        } else {
            0
        }
    }

    fn put_byte(&mut self, b: u8) {
        self.push(b);
    }

    fn put_bytes(&mut self, s: &[u8]) {
        put_slice(self, s);
    }
}

impl ByteSink for BytesMut {
    open spec fn sink_contents(&self) -> Seq<u8> {
        bytes_mut_contents(*self)
    }

    open spec fn sink_room(&self) -> nat {
        if bytes_mut_contents(*self).len() <= bytes_mut_limit() {
            (bytes_mut_limit() - bytes_mut_contents(*self).len()) as nat
        } else {
            0
        }
    }

    fn put_byte(&mut self, b: u8) {
        put_u8(self, b);
    }

    fn put_bytes(&mut self, s: &[u8]) {
        if s.len() > 0 {
            extend_from_slice(self, s);
        } else {
            assert(bytes_mut_contents(*self) + s@ =~= bytes_mut_contents(*self));
        }
    }
}

} // verus!
