//! The body of a session initiation packet: protocol version, initiator token
//! and sender SSRC, each four bytes in network byte order.
use crate::endian::{be_u32_value, read_u32_be, u32_be_bytes};
use crate::io::{Error, ErrorKind};
use crate::stream::{put_u32_be, ByteSink};
use vstd::prelude::*;

verus! {

#[derive(Debug, Clone, Copy, PartialEq, Eq, Structural)]
pub struct SessionInitiationPacketBody {
    pub protocol_version: u32,
    pub initiator_token: u32,
    pub sender_ssrc: u32,
}

/// The twelve bytes of a body.
pub open spec fn session_body_bytes(protocol_version: u32, initiator_token: u32, sender_ssrc: u32) -> Seq<u8> {
    u32_be_bytes(protocol_version) + u32_be_bytes(initiator_token) + u32_be_bytes(sender_ssrc)
}

/// The body whose bytes start `s`.
pub open spec fn session_body_of(s: Seq<u8>) -> SessionInitiationPacketBody {
    SessionInitiationPacketBody {
        protocol_version: be_u32_value(s) as u32,
        initiator_token: be_u32_value(s.skip(4)) as u32,
        sender_ssrc: be_u32_value(s.skip(8)) as u32,
    }
}

impl SessionInitiationPacketBody {
    /// The body that `new` builds.
    pub open spec fn new_spec(initiator_token: u32, sender_ssrc: u32) -> SessionInitiationPacketBody {
        SessionInitiationPacketBody { protocol_version: 2, initiator_token, sender_ssrc }
    }

    /// The number of bytes of a body.
    pub const SIZE: usize = 12;

    /// A body of protocol version 2.
    pub fn new(initiator_token: u32, sender_ssrc: u32) -> (b: SessionInitiationPacketBody)
        ensures
            b == (SessionInitiationPacketBody { protocol_version: 2, initiator_token, sender_ssrc }),
    {
        SessionInitiationPacketBody { protocol_version: 2, initiator_token, sender_ssrc }
    }

    /// The body at the front of `bytes` and the bytes after it. Fails with
    /// `InvalidData` on fewer than twelve bytes.
    pub fn ref_from_prefix(bytes: &[u8]) -> (r: Result<(Self, &[u8]), Error>)
        ensures
            match r {
                Ok((b, rest)) => bytes@.len() >= 12 && b == session_body_of(bytes@) && rest@
                    == bytes@.skip(12),
                Err(e) => bytes@.len() < 12 && e.kind == ErrorKind::InvalidData,
            },
    {
        if bytes.len() < 12 {
            return Err(Error::new(ErrorKind::InvalidData));
        }
        let protocol_version = read_u32_be(bytes);
        let initiator_token = read_u32_be(&bytes[4..8]);
        let sender_ssrc = read_u32_be(&bytes[8..12]);
        assert(bytes@.subrange(4, 8) =~= bytes@.skip(4).take(4));
        assert(bytes@.subrange(8, 12) =~= bytes@.skip(8).take(4));
        let rest = &bytes[12..bytes.len()];
        assert(rest@ =~= bytes@.skip(12));
        Ok((SessionInitiationPacketBody { protocol_version, initiator_token, sender_ssrc }, rest))
    }

    /// The body that `bytes` holds; it must be exactly twelve bytes long, else
    /// `InvalidData`.
    pub fn ref_from_bytes(bytes: &[u8]) -> (r: Result<Self, Error>)
        ensures
            match r {
                Ok(b) => bytes@.len() == 12 && b == session_body_of(bytes@),
                Err(e) => bytes@.len() != 12 && e.kind == ErrorKind::InvalidData,
            },
    {
        if bytes.len() != 12 {
            return Err(Error::new(ErrorKind::InvalidData));
        }
        match Self::ref_from_prefix(bytes) {
            Ok((b, _)) => Ok(b),
            Err(e) => Err(e),
        }
    }

    /// Appends the twelve bytes of the body.
    pub fn write<W: ByteSink>(&self, writer: &mut W)
        requires
            old(writer).sink_room() >= 12,
        ensures
            final(writer).sink_contents() == old(writer).sink_contents() + session_body_bytes(
                self.protocol_version,
                self.initiator_token,
                self.sender_ssrc,
            ),
    {
        put_u32_be(writer, self.protocol_version);
        put_u32_be(writer, self.initiator_token);
        put_u32_be(writer, self.sender_ssrc);
        assert(writer.sink_contents() =~= old(writer).sink_contents() + session_body_bytes(
            self.protocol_version,
            self.initiator_token,
            self.sender_ssrc,
        ));
    }
}

/// A body read back from its own bytes is the same body, whatever follows.
pub proof fn lemma_write_then_read(b: SessionInitiationPacketBody, rest: Seq<u8>)
    ensures
        ({
            let s = session_body_bytes(b.protocol_version, b.initiator_token, b.sender_ssrc) + rest;
            &&& s.len() >= 12
            &&& session_body_of(s) == b
            &&& s.skip(12) == rest
        }),
{
    crate::endian::lemma_u32_be_roundtrip(b.protocol_version);
    crate::endian::lemma_u32_be_roundtrip(b.initiator_token);
    crate::endian::lemma_u32_be_roundtrip(b.sender_ssrc);
    let s = session_body_bytes(b.protocol_version, b.initiator_token, b.sender_ssrc) + rest;
    assert(s.take(4) =~= u32_be_bytes(b.protocol_version));
    assert(s.skip(4).take(4) =~= u32_be_bytes(b.initiator_token));
    assert(s.skip(8).take(4) =~= u32_be_bytes(b.sender_ssrc));
    assert(s.skip(12) =~= rest);
    assert(be_u32_value(s) == be_u32_value(s.take(4)));
    assert(be_u32_value(s.skip(4)) == be_u32_value(s.skip(4).take(4)));
    assert(be_u32_value(s.skip(8)) == be_u32_value(s.skip(8).take(4)));
}

} // verus!
