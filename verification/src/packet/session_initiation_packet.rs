//! A session initiation packet with its header: 0xFF 0xFF, the command, the
//! protocol version, initiator token and SSRC, and an optional NUL-terminated name.
use crate::endian::{be_u32_value, read_u32_be, u32_be_bytes, write_u32_be, tail_mut, copy_prefix};
use crate::io::{Error, ErrorKind};
use crate::text::{string_from_utf8_lossy, utf8_lossy};
use vstd::prelude::*;
use crate::util::{has_no_nul, lemma_encode_utf8_no_nul};
use vstd::utf8::{decode_utf8, encode_utf8, valid_utf8};

verus! {

#[derive(Debug)]
pub struct SessionInitiationPacket {
    pub command: [u8; 2],
    pub protocol_version: u32,
    pub initiator_token: u32,
    pub sender_ssrc: u32,
    pub name: Option<String>,
}

/// The index of the first zero byte of `s`, if any.
pub open spec fn first_nul(s: Seq<u8>) -> Option<nat>
    decreases s.len(),
{
    if s.len() == 0 {
        None
    } else if s[0] == 0 {
        Some(0)
    } else {
        match first_nul(s.drop_first()) {
            Some(k) => Some(k + 1),
            None => None,
        }
    }
}

/// `first_nul` finds the first zero byte.
pub proof fn lemma_first_nul(s: Seq<u8>, i: int)
    requires
        0 <= i <= s.len(),
        forall|j: int| 0 <= j < i ==> s[j] != 0,
    ensures
        i < s.len() && s[i] == 0 ==> first_nul(s) == Some(i as nat),
        i == s.len() ==> first_nul(s) is None,
    decreases i,
{
    if i > 0 {
        let t = s.drop_first();
        assert forall|j: int| 0 <= j < i - 1 implies t[j] != 0 by {
            assert(t[j] == s[j + 1]);
        }
        lemma_first_nul(t, i - 1);
        if i < s.len() {
            assert(t[i - 1] == s[i]);
        }
    }
}

/// The bytes of the name that `parse` finds after the sixteenth byte: those
/// before the first NUL, or none when there is no NUL.
pub open spec fn name_bytes_of(buffer: Seq<u8>) -> Option<Seq<u8>> {
    if buffer.len() > 16 {
        match first_nul(buffer.skip(16)) {
            Some(p) => Some(buffer.skip(16).take(p as int)),
            None => None,
        }
    } else {
        None
    }
}

/// The name that `parse` reads: the text of `name_bytes_of`.
pub open spec fn name_of(buffer: Seq<u8>) -> Option<Seq<char>> {
    match name_bytes_of(buffer) {
        Some(b) => Some(utf8_lossy(b)),
        None => None,
    }
}

impl SessionInitiationPacket {
    /// The packet holds the fields that `buffer` holds.
    pub open spec fn is_read_from(&self, buffer: Seq<u8>) -> bool {
        &&& self.command@ == buffer.subrange(2, 4)
        &&& self.protocol_version == be_u32_value(buffer.skip(4))
        &&& self.initiator_token == be_u32_value(buffer.skip(8))
        &&& self.sender_ssrc == be_u32_value(buffer.skip(12))
        &&& match (self.name, name_of(buffer)) {
            (Some(n), Some(m)) => n@ == m,
            (None, None) => true,
            _ => false,
        }
        &&& self.name matches Some(n) ==> (name_bytes_of(buffer) matches Some(b) ==> (valid_utf8(b) ==> n@
            == decode_utf8(b)))
    }

    /// The number of bytes before the name.
    pub const MIN_SIZE: usize = 16;

    /// The bytes of the name, if there is one.
    pub open spec fn spec_name_bytes(&self) -> Seq<u8> {
        match self.name {
            Some(n) => encode_utf8(n@),
            None => Seq::empty(),
        }
    }

    /// The number of bytes that `write_to_bytes` writes.
    pub open spec fn spec_size(&self) -> nat {
        match self.name {
            Some(n) => 16 + encode_utf8(n@).len() + 1,
            None => 16,
        }
    }

    /// The bytes that `write_to_bytes` writes.
    pub open spec fn spec_bytes(&self) -> Seq<u8> {
        seq![255u8, 255u8] + self.command@ + u32_be_bytes(self.protocol_version) + u32_be_bytes(
            self.initiator_token,
        ) + u32_be_bytes(self.sender_ssrc) + match self.name {
            Some(n) => encode_utf8(n@) + seq![0u8],
            None => Seq::<u8>::empty(),
        }
    }

    /// Reads a packet: the command from bytes 2 and 3, the three numbers from
    /// bytes 4 to 15, and the name after them. Fails with `InvalidData` on fewer
    /// than sixteen bytes.
    pub fn parse(buffer: &[u8]) -> (r: Result<Self, Error>)
        ensures
            match r {
                Ok(p) => {
                    &&& buffer@.len() >= 16
                    &&& p.is_read_from(buffer@)
                },
                Err(e) => buffer@.len() < 16 && e.kind == ErrorKind::InvalidData,
            },
    {
        if buffer.len() < SessionInitiationPacket::MIN_SIZE {
            return Err(Error::new(ErrorKind::InvalidData));
        }
        let command = [buffer[2], buffer[3]];
        assert(command@ =~= buffer@.subrange(2, 4));
        let protocol_version = read_u32_be(&buffer[4..8]);
        let initiator_token = read_u32_be(&buffer[8..12]);
        let sender_ssrc = read_u32_be(&buffer[12..16]);
        assert(buffer@.subrange(4, 8) =~= buffer@.skip(4).take(4));
        assert(buffer@.subrange(8, 12) =~= buffer@.skip(8).take(4));
        assert(buffer@.subrange(12, 16) =~= buffer@.skip(12).take(4));
        let name = if buffer.len() > 16 {
            let name_bytes = &buffer[16..buffer.len()];
            assert(name_bytes@ =~= buffer@.skip(16));
            let mut pos: usize = 0;
            while pos < name_bytes.len() && name_bytes[pos] != 0
                invariant
                    pos <= name_bytes@.len(),
                    forall|j: int| 0 <= j < pos ==> name_bytes@[j] != 0,
                decreases name_bytes@.len() - pos,
            {
                pos = pos + 1;
            }
            proof {
                lemma_first_nul(name_bytes@, pos as int);
            }
            if pos < name_bytes.len() {
                let text = &name_bytes[0..pos];
                assert(text@ =~= name_bytes@.take(pos as int));
                assert(name_bytes_of(buffer@) == Some(text@));
                Some(string_from_utf8_lossy(text))
            } else {
                None
            }
        } else {
            None
        };
        Ok(SessionInitiationPacket { command, protocol_version, initiator_token, sender_ssrc, name })
    }

    /// Writes the packet at the front of `bytes`; see `spec_bytes`. Fails with
    /// `InvalidData`, writing nothing, when it does not fit.
    #[verifier::spinoff_prover]
    #[verifier::rlimit(30)]
    pub fn write_to_bytes(&self, bytes: &mut [u8]) -> (r: Result<usize, Error>)
        requires
            self.spec_size() <= usize::MAX,
        ensures
            match r {
                Ok(n) => n == self.spec_size() && old(bytes)@.len() >= n && final(bytes)@ == self.spec_bytes()
                    + old(bytes)@.skip(n as int),
                Err(e) => old(bytes)@.len() < self.spec_size() && e.kind == ErrorKind::InvalidData
                    && final(bytes)@ == old(bytes)@,
            },
    {
        let length = self.size();
        if bytes.len() < length {
            return Err(Error::new(ErrorKind::InvalidData));
        }
        let ghost o = old(bytes)@;
        bytes[0] = 255;
        bytes[1] = 255;
        bytes[2] = self.command[0];
        bytes[3] = self.command[1];
        let ghost h0 = seq![255u8, 255u8] + self.command@;
        assert(bytes@ =~= h0 + o.skip(4));
        {
            let t = tail_mut(bytes, 4);
            write_u32_be(t, self.protocol_version);
        }
        let ghost h1 = h0 + u32_be_bytes(self.protocol_version);
        assert(bytes@ =~= h1 + o.skip(8));
        {
            let t = tail_mut(bytes, 8);
            write_u32_be(t, self.initiator_token);
        }
        let ghost h2 = h1 + u32_be_bytes(self.initiator_token);
        assert(bytes@ =~= h2 + o.skip(12));
        {
            let t = tail_mut(bytes, 12);
            write_u32_be(t, self.sender_ssrc);
        }
        let ghost h3 = h2 + u32_be_bytes(self.sender_ssrc);
        assert(bytes@ =~= h3 + o.skip(16));
        if let Some(name) = &self.name {
            let name_bytes = name.as_str().as_bytes();
            {
                let t = tail_mut(bytes, 16);
                copy_prefix(t, name_bytes);
            }
            assert(bytes@ =~= h3 + name_bytes@ + o.skip((16 + name_bytes@.len()) as int));
            bytes[16 + name_bytes.len()] = 0;
            assert(bytes@ =~= h3 + name_bytes@ + seq![0u8] + o.skip(length as int));
        }
        assert(bytes@ =~= self.spec_bytes() + o.skip(length as int));
        Ok(length)
    }

    /// The number of bytes of the packet: sixteen, and the name with its NUL.
    pub fn size(&self) -> (n: usize)
        requires
            self.spec_size() <= usize::MAX,
        ensures
            n == self.spec_size(),
    {
        match &self.name {
            Some(name) => SessionInitiationPacket::MIN_SIZE + name.as_str().len() + 1,
            None => SessionInitiationPacket::MIN_SIZE,
        }
    }
}

/// A packet written by `write_to_bytes` is parsed back by `parse` with the same
/// command, numbers and name, whatever follows it, when the name has no NUL
/// character; with no name, what follows must hold no zero byte.
pub proof fn lemma_write_then_parse(p: SessionInitiationPacket, q: SessionInitiationPacket, rest: Seq<u8>)
    requires
        p.name matches Some(n) ==> has_no_nul(n@),
        p.name is None ==> forall|j: int| 0 <= j < rest.len() ==> rest[j] != 0,
        q.is_read_from(p.spec_bytes() + rest),
    ensures
        (p.spec_bytes() + rest).len() >= 16,
        q.command == p.command,
        q.protocol_version == p.protocol_version,
        q.initiator_token == p.initiator_token,
        q.sender_ssrc == p.sender_ssrc,
        match (q.name, p.name) {
            (Some(x), Some(y)) => x@ == y@,
            (None, None) => true,
            _ => false,
        },
{
    let s = p.spec_bytes() + rest;
    crate::endian::lemma_u32_be_roundtrip(p.protocol_version);
    crate::endian::lemma_u32_be_roundtrip(p.initiator_token);
    crate::endian::lemma_u32_be_roundtrip(p.sender_ssrc);
    assert(s.subrange(2, 4) =~= p.command@);
    assert(q.command@ =~= p.command@);
    assert(s.skip(4).take(4) =~= u32_be_bytes(p.protocol_version));
    assert(s.skip(8).take(4) =~= u32_be_bytes(p.initiator_token));
    assert(s.skip(12).take(4) =~= u32_be_bytes(p.sender_ssrc));
    assert(be_u32_value(s.skip(4)) == be_u32_value(s.skip(4).take(4)));
    assert(be_u32_value(s.skip(8)) == be_u32_value(s.skip(8).take(4)));
    assert(be_u32_value(s.skip(12)) == be_u32_value(s.skip(12).take(4)));
    let t = s.skip(16);
    match p.name {
        Some(n) => {
            let e = encode_utf8(n@);
            lemma_encode_utf8_no_nul(n@);
            assert(t =~= e + seq![0u8] + rest);
            assert forall|j: int| 0 <= j < e.len() implies t[j] != 0 by {
                assert(t[j] == e[j]);
            }
            assert(t[e.len() as int] == 0);
            lemma_first_nul(t, e.len() as int);
            assert(t.take(e.len() as int) =~= e);
            assert(name_bytes_of(s) == Some(e));
        },
        None => {
            assert(t =~= rest);
            lemma_first_nul(t, t.len() as int);
            assert(name_bytes_of(s) is None);
        },
    }
}

} // verus!
