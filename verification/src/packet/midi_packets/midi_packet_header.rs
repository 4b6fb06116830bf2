//! The twelve-byte RTP header of a MIDI packet, read from a byte stream and
//! appended to a byte sink.
use crate::endian::{be_u16_value, be_u32_value, u16_be_bytes, u32_be_bytes};
use crate::io::{Error, ErrorKind};
use crate::stream::{put_u16_be, put_u32_be, ByteReader, ByteSink};
use vstd::prelude::*;

verus! {

#[derive(Debug, Clone, Copy, PartialEq, Eq, Structural)]
pub struct MidiPacketHeader {
    flags: u16,
    sequence_number: u16,
    timestamp: u32,
    ssrc: u32,
}

/// The twelve bytes of a header: the flags, the sequence number, the
/// timestamp and the SSRC, each most significant byte first.
pub open spec fn rtp_header_bytes(flags: u16, sequence_number: u16, timestamp: u32, ssrc: u32) -> Seq<u8> {
    u16_be_bytes(flags) + u16_be_bytes(sequence_number) + u32_be_bytes(timestamp) + u32_be_bytes(ssrc)
}

impl MidiPacketHeader {
    pub closed spec fn spec_flags(self) -> u16 {
        self.flags
    }

    pub closed spec fn spec_sequence_number(self) -> u16 {
        self.sequence_number
    }

    pub closed spec fn spec_timestamp(self) -> u32 {
        self.timestamp
    }

    pub closed spec fn spec_ssrc(self) -> u32 {
        self.ssrc
    }

    /// The bytes that `write` appends.
    pub open spec fn spec_bytes(self) -> Seq<u8> {
        rtp_header_bytes(self.spec_flags(), self.spec_sequence_number(), self.spec_timestamp(), self.spec_ssrc())
    }

    /// A header of RTP version 2 with payload type 97 and the other flags clear.
    pub fn new(sequence_number: u16, timestamp: u32, ssrc: u32) -> (h: Self)
        ensures
            h.spec_flags() == 0x8061,
            h.spec_sequence_number() == sequence_number,
            h.spec_timestamp() == timestamp,
            h.spec_ssrc() == ssrc,
    {
        MidiPacketHeader { flags: 0x8061, sequence_number, timestamp, ssrc }
    }

    pub fn sequence_number(&self) -> (s: u16)
        ensures
            s == self.spec_sequence_number(),
    {
        self.sequence_number
    }

    pub fn timestamp(&self) -> (t: u32)
        ensures
            t == self.spec_timestamp(),
    {
        self.timestamp
    }

    pub fn ssrc(&self) -> (s: u32)
        ensures
            s == self.spec_ssrc(),
    {
        self.ssrc
    }

    /// Reads the twelve header bytes. Fails with `UnexpectedEof` on fewer.
    pub fn read(reader: &mut ByteReader) -> (r: Result<Self, Error>)
        requires
            old(reader).wf(),
        ensures
            final(reader).wf(),
            final(reader).spec_data() == old(reader).spec_data(),
            match r {
                Ok(h) => {
                    let rest = old(reader).rest();
                    &&& rest.len() >= 12
                    &&& h.spec_flags() == be_u16_value(rest)
                    &&& h.spec_sequence_number() == be_u16_value(rest.skip(2))
                    &&& h.spec_timestamp() == be_u32_value(rest.skip(4))
                    &&& h.spec_ssrc() == be_u32_value(rest.skip(8))
                    &&& final(reader).rest() == rest.skip(12)
                },
                Err(e) => old(reader).rest().len() < 12 && e.kind == ErrorKind::UnexpectedEof,
            },
    {
        let ghost rest = reader.rest();
        let flags = match reader.read_u16_be() {
            Ok(v) => v,
            Err(e) => return Err(e),
        };
        let sequence_number = match reader.read_u16_be() {
            Ok(v) => v,
            Err(e) => return Err(e),
        };
        let timestamp = match reader.read_u32_be() {
            Ok(v) => v,
            Err(e) => return Err(e),
        };
        let ssrc = match reader.read_u32_be() {
            Ok(v) => v,
            Err(e) => return Err(e),
        };
        proof {
            assert(rest.skip(2).skip(2) =~= rest.skip(4));
            assert(rest.skip(4).skip(4) =~= rest.skip(8));
            assert(rest.skip(8).skip(4) =~= rest.skip(12));
        }
        Ok(MidiPacketHeader { flags, sequence_number, timestamp, ssrc })
    }

    /// Appends the twelve header bytes; returns 12.
    pub fn write<W: ByteSink>(&self, writer: &mut W) -> (r: Result<usize, Error>)
        requires
            old(writer).sink_room() >= 12,
        ensures
            r matches Ok(n) && n == 12,
            final(writer).sink_contents() == old(writer).sink_contents() + self.spec_bytes(),
            final(writer).sink_room() == old(writer).sink_room() - 12,
    {
        let ghost start = writer.sink_contents();
        put_u16_be(writer, self.flags);
        put_u16_be(writer, self.sequence_number);
        put_u32_be(writer, self.timestamp);
        put_u32_be(writer, self.ssrc);
        assert(writer.sink_contents() =~= start + self.spec_bytes());
        Ok(12)
    }
}

} // verus!
