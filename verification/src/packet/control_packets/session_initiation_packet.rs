//! Session initiation packets (invitation, acknowledgment, rejection and
//! termination) read from and written to byte streams.
use super::control_packet::ControlPacket;
use crate::endian::{be_u32_value, u32_be_bytes};
use crate::io::{Error, ErrorKind};
use crate::stream::{put_u32_be, ByteReader, ByteSink};
use crate::util::{
    bytes_before_nul, has_no_nul, lemma_encode_utf8_no_nul, optional_text_matches, read_optional_string,
    spec_optional_string,
};
use crate::packet::session_initiation_packet::lemma_first_nul;
use vstd::prelude::*;
use vstd::utf8::{decode_utf8, encode_utf8, valid_utf8};

verus! {

#[derive(Debug)]
pub enum SessionInitiationPacket {
    Invitation(SessionInitiationPacketBody),
    Acknowledgment(SessionInitiationPacketBody),
    Rejection(SessionInitiationPacketBody),
    Termination(SessionInitiationPacketBody),
}

#[derive(Debug)]
pub struct SessionInitiationPacketBody {
    pub protocol_version: u32,
    pub initiator_token: u32,
    pub sender_ssrc: u32,
    pub name: Option<String>,
}

impl SessionInitiationPacketBody {
    /// The size of a packet without a name, header included.
    pub const MIN_SIZE: usize = 16;

    /// The body holds what `rest` holds: three numbers, then the optional name.
    pub open spec fn is_read_from(&self, rest: Seq<u8>) -> bool {
        &&& rest.len() >= 12
        &&& self.protocol_version == be_u32_value(rest)
        &&& self.initiator_token == be_u32_value(rest.skip(4))
        &&& self.sender_ssrc == be_u32_value(rest.skip(8))
        &&& spec_optional_string(rest.skip(12)) matches Ok((s, _)) && optional_text_matches(self.name, s)
        &&& self.name matches Some(v) ==> (valid_utf8(bytes_before_nul(rest.skip(12))) ==> v@ == decode_utf8(
            bytes_before_nul(rest.skip(12)),
        ))
    }

    /// The bytes that `write` appends.
    pub open spec fn spec_bytes(&self) -> Seq<u8> {
        u32_be_bytes(self.protocol_version) + u32_be_bytes(self.initiator_token) + u32_be_bytes(self.sender_ssrc)
            + match self.name {
            Some(n) => encode_utf8(n@) + seq![0u8],
            None => Seq::<u8>::empty(),
        }
    }

    /// Sixteen, and the name's bytes with a NUL when there is a name.
    pub open spec fn spec_size(&self) -> nat {
        match self.name {
            Some(n) => 16 + encode_utf8(n@).len() + 1,
            None => 16,
        }
    }

    /// Reads a body: protocol version, initiator token, SSRC, then an optional
    /// NUL-terminated name. Fails with `UnexpectedEof` when the bytes run out.
    pub fn read(reader: &mut ByteReader) -> (r: Result<Self, Error>)
        requires
            old(reader).wf(),
        ensures
            final(reader).wf(),
            final(reader).spec_data() == old(reader).spec_data(),
            match r {
                Ok(b) => b.is_read_from(old(reader).rest()),
                Err(e) => e.kind == ErrorKind::UnexpectedEof && (old(reader).rest().len() < 12 || spec_optional_string(
                    old(reader).rest().skip(12),
                ) is Err),
            },
    {
        let ghost rest = reader.rest();
        let protocol_version = match reader.read_u32_be() {
            Ok(v) => v,
            Err(e) => return Err(e),
        };
        let initiator_token = match reader.read_u32_be() {
            Ok(v) => v,
            Err(e) => return Err(e),
        };
        assert(reader.rest() =~= rest.skip(8));
        let sender_ssrc = match reader.read_u32_be() {
            Ok(v) => v,
            Err(e) => return Err(e),
        };
        assert(reader.rest() =~= rest.skip(12));
        let name = match read_optional_string(reader) {
            Ok(n) => n,
            Err(e) => return Err(e),
        };
        Ok(SessionInitiationPacketBody { protocol_version, initiator_token, sender_ssrc, name })
    }

    /// Appends the three numbers, then the name and a NUL when there is a name;
    /// returns `size()`.
    pub fn write<W: ByteSink>(&self, writer: &mut W) -> (r: Result<usize, Error>)
        requires
            old(writer).sink_room() >= self.spec_size(),
            self.spec_size() <= usize::MAX,
        ensures
            r matches Ok(n) && n == self.spec_size(),
            final(writer).sink_contents() == old(writer).sink_contents() + self.spec_bytes(),
    {
        let length = self.size();
        put_u32_be(writer, self.protocol_version);
        put_u32_be(writer, self.initiator_token);
        put_u32_be(writer, self.sender_ssrc);
        if let Some(name) = &self.name {
            let bytes = name.as_str().as_bytes();
            writer.put_bytes(bytes);
            writer.put_byte(0);
        }
        assert(writer.sink_contents() =~= old(writer).sink_contents() + self.spec_bytes());
        Ok(length)
    }

    pub fn size(&self) -> (n: usize)
        requires
            self.spec_size() <= usize::MAX,
        ensures
            n == self.spec_size(),
    {
        match &self.name {
            Some(name) => SessionInitiationPacketBody::MIN_SIZE + name.as_str().len() + 1,
            None => SessionInitiationPacketBody::MIN_SIZE,
        }
    }
}

impl SessionInitiationPacket {
    pub open spec fn spec_body(&self) -> &SessionInitiationPacketBody {
        match self {
            SessionInitiationPacket::Invitation(body) => body,
            SessionInitiationPacket::Acknowledgment(body) => body,
            SessionInitiationPacket::Rejection(body) => body,
            SessionInitiationPacket::Termination(body) => body,
        }
    }

    /// The command letters of the packet.
    pub open spec fn spec_command(&self) -> Seq<u8> {
        match self {
            SessionInitiationPacket::Invitation(_) => seq![0x49u8, 0x4Eu8],
            SessionInitiationPacket::Acknowledgment(_) => seq![0x4Fu8, 0x4Bu8],
            SessionInitiationPacket::Rejection(_) => seq![0x4Eu8, 0x4Fu8],
            SessionInitiationPacket::Termination(_) => seq![0x42u8, 0x59u8],
        }
    }

    /// An acknowledgment of protocol version 2 with the given name.
    pub fn new_acknowledgment(initiator_token: u32, sender_ssrc: u32, name: String) -> (p: Self)
        ensures
            p matches SessionInitiationPacket::Acknowledgment(b) && b.protocol_version == 2 && b.initiator_token
                == initiator_token && b.sender_ssrc == sender_ssrc && b.name == Some(name),
    {
        SessionInitiationPacket::Acknowledgment(
            SessionInitiationPacketBody { protocol_version: 2, initiator_token, sender_ssrc, name: Some(name) },
        )
    }

    /// Reads a body and makes it the packet that `command` names: "IN",
    /// "OK", "NO" or "BY". Fails as reading the body fails, and with
    /// `InvalidData` on any other command.
    pub fn read(reader: &mut ByteReader, command: &[u8]) -> (r: Result<Self, Error>)
        requires
            old(reader).wf(),
            command@.len() == 2,
        ensures
            final(reader).wf(),
            final(reader).spec_data() == old(reader).spec_data(),
            match r {
                Ok(p) => p.spec_body().is_read_from(old(reader).rest()) && p.spec_command() == command@,
                Err(e) => if old(reader).rest().len() < 12 || spec_optional_string(old(reader).rest().skip(12)) is Err {
                    e.kind == ErrorKind::UnexpectedEof
                } else {
                    e.kind == ErrorKind::InvalidData && command@ != seq![0x49u8, 0x4Eu8] && command@ != seq![0x4Fu8, 0x4Bu8]
                        && command@ != seq![0x4Eu8, 0x4Fu8] && command@ != seq![0x42u8, 0x59u8]
                },
            },
    {
        let body = match SessionInitiationPacketBody::read(reader) {
            Ok(b) => b,
            Err(e) => return Err(e),
        };
        let c0 = command[0];
        let c1 = command[1];
        if c0 == 0x49 && c1 == 0x4E {
            assert(command@ =~= seq![0x49u8, 0x4Eu8]);
            Ok(SessionInitiationPacket::Invitation(body))
        } else if c0 == 0x4F && c1 == 0x4B {
            assert(command@ =~= seq![0x4Fu8, 0x4Bu8]);
            Ok(SessionInitiationPacket::Acknowledgment(body))
        } else if c0 == 0x4E && c1 == 0x4F {
            assert(command@ =~= seq![0x4Eu8, 0x4Fu8]);
            Ok(SessionInitiationPacket::Rejection(body))
        } else if c0 == 0x42 && c1 == 0x59 {
            assert(command@ =~= seq![0x42u8, 0x59u8]);
            Ok(SessionInitiationPacket::Termination(body))
        } else {
            assert(command@ != seq![0x49u8, 0x4Eu8] && command@ != seq![0x4Fu8, 0x4Bu8] && command@ != seq![0x4Eu8, 0x4Fu8]
                && command@ != seq![0x42u8, 0x59u8]) by {
                if command@ == seq![0x49u8, 0x4Eu8] || command@ == seq![0x4Fu8, 0x4Bu8] || command@ == seq![0x4Eu8, 0x4Fu8]
                    || command@ == seq![0x42u8, 0x59u8] {
                    assert(command@[0] == c0 && command@[1] == c1);
                }
            }
            Err(Error::new(ErrorKind::InvalidData))
        }
    }

    fn body(&self) -> (b: &SessionInitiationPacketBody)
        ensures
            b == self.spec_body(),
    {
        match self {
            SessionInitiationPacket::Invitation(body)
            | SessionInitiationPacket::Acknowledgment(body)
            | SessionInitiationPacket::Rejection(body)
            | SessionInitiationPacket::Termination(body) => body,
        }
    }

    /// Appends the header with the packet's command, then the body; returns
    /// four plus the body's `size()`.
    pub fn write<W: ByteSink>(&self, writer: &mut W) -> (r: Result<usize, Error>)
        requires
            old(writer).sink_room() >= self.spec_body().spec_size() + 4,
            self.spec_body().spec_size() + 4 <= usize::MAX,
        ensures
            r matches Ok(n) && n == self.spec_body().spec_size() + 4,
            final(writer).sink_contents() == old(writer).sink_contents() + seq![255u8, 255u8] + self.spec_command()
                + self.spec_body().spec_bytes(),
    {
        let command: &[u8; 2] = match self {
            SessionInitiationPacket::Invitation(_) => &[0x49, 0x4E],
            SessionInitiationPacket::Acknowledgment(_) => &[0x4F, 0x4B],
            SessionInitiationPacket::Rejection(_) => &[0x4E, 0x4F],
            SessionInitiationPacket::Termination(_) => &[0x42, 0x59],
        };
        assert(command@ =~= self.spec_command());
        let mut length = match ControlPacket::write_header(writer, command) {
            Ok(n) => n,
            Err(e) => return Err(e),
        };
        length += match self.body().write(writer) {
            Ok(n) => n,
            Err(e) => return Err(e),
        };
        Ok(length)
    }
}

/// A body written by `write` is read back by `read` with the same numbers and
/// name, whatever follows it, when the name has no NUL character; with no name,
/// the stream must end after the numbers.
pub proof fn lemma_write_then_read(b: SessionInitiationPacketBody, q: SessionInitiationPacketBody, rest: Seq<u8>)
    requires
        b.name matches Some(n) ==> has_no_nul(n@),
        b.name is None ==> rest.len() == 0,
        q.is_read_from(b.spec_bytes() + rest),
    ensures
        (b.spec_bytes() + rest).len() >= 12,
        spec_optional_string((b.spec_bytes() + rest).skip(12)) is Ok,
        q.protocol_version == b.protocol_version,
        q.initiator_token == b.initiator_token,
        q.sender_ssrc == b.sender_ssrc,
        match (q.name, b.name) {
            (Some(x), Some(y)) => x@ == y@,
            (None, None) => true,
            _ => false,
        },
{
    let s = b.spec_bytes() + rest;
    crate::endian::lemma_u32_be_roundtrip(b.protocol_version);
    crate::endian::lemma_u32_be_roundtrip(b.initiator_token);
    crate::endian::lemma_u32_be_roundtrip(b.sender_ssrc);
    assert(s.take(4) =~= u32_be_bytes(b.protocol_version));
    assert(s.skip(4).take(4) =~= u32_be_bytes(b.initiator_token));
    assert(s.skip(8).take(4) =~= u32_be_bytes(b.sender_ssrc));
    assert(be_u32_value(s) == be_u32_value(s.take(4)));
    assert(be_u32_value(s.skip(4)) == be_u32_value(s.skip(4).take(4)));
    assert(be_u32_value(s.skip(8)) == be_u32_value(s.skip(8).take(4)));
    let t = s.skip(12);
    match b.name {
        Some(n) => {
            let e = encode_utf8(n@);
            lemma_encode_utf8_no_nul(n@);
            assert(t =~= e + seq![0u8] + rest);
            assert forall|j: int| 0 <= j < e.len() implies t[j] != 0 by {
                assert(t[j] == e[j]);
            }
            assert(t[e.len() as int] == 0);
            lemma_first_nul(t, e.len() as int);
            assert(t.take(e.len() as int) =~= e);
            assert(bytes_before_nul(t) == e);
        },
        None => {
            assert(t =~= Seq::<u8>::empty());
        },
    }
}

} // verus!
