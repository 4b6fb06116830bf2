//! A clock synchronisation packet read from and written to byte streams.
use super::control_packet::ControlPacket;
use crate::endian::{be_u32_value, be_u64_value, u32_be_bytes, u64_be_bytes};
use crate::io::{Error, ErrorKind};
use crate::stream::{put_u32_be, put_u64_be, ByteReader, ByteSink};
use vstd::prelude::*;

verus! {

#[derive(Debug, Clone, Copy, PartialEq, Eq)]
pub struct ClockSyncPacket {
    pub count: u8,
    pub timestamps: [u64; 3],
    pub sender_ssrc: u32,
}

/// The thirty-two bytes of a body: SSRC, count, three reserved bytes and the
/// three timestamps.
pub open spec fn clock_sync_body(p: ClockSyncPacket) -> Seq<u8> {
    u32_be_bytes(p.sender_ssrc) + seq![p.count, 0u8, 0u8, 0u8] + u64_be_bytes(p.timestamps[0])
        + u64_be_bytes(p.timestamps[1]) + u64_be_bytes(p.timestamps[2])
}

impl ClockSyncPacket {
    /// The number of bytes of a packet with its header.
    pub const SIZE: usize = 36;

    pub fn new(count: u8, timestamps: [u64; 3], sender_ssrc: u32) -> (p: Self)
        ensures
            p == (ClockSyncPacket { count, timestamps, sender_ssrc }),
    {
        ClockSyncPacket { count, timestamps, sender_ssrc }
    }

    /// Reads a body: the SSRC, the count, three reserved bytes (skipped) and
    /// three timestamps. Fails with `UnexpectedEof` on fewer than thirty-two bytes.
    pub fn read(reader: &mut ByteReader) -> (r: Result<Self, Error>)
        requires
            old(reader).wf(),
        ensures
            final(reader).wf(),
            final(reader).spec_data() == old(reader).spec_data(),
            match r {
                Ok(p) => {
                    let rest = old(reader).rest();
                    &&& rest.len() >= 32
                    &&& p.sender_ssrc == be_u32_value(rest)
                    &&& p.count == rest[4]
                    &&& p.timestamps[0] == be_u64_value(rest.skip(8))
                    &&& p.timestamps[1] == be_u64_value(rest.skip(16))
                    &&& p.timestamps[2] == be_u64_value(rest.skip(24))
                    &&& final(reader).rest() == rest.skip(32)
                },
                Err(e) => old(reader).rest().len() < 32 && e.kind == ErrorKind::UnexpectedEof,
            },
    {
        let ghost rest = reader.rest();
        let sender_ssrc = match reader.read_u32_be() {
            Ok(v) => v,
            Err(e) => return Err(e),
        };
        let count = match reader.read_u8() {
            Ok(v) => v,
            Err(e) => return Err(e),
        };
        assert(rest.skip(4)[0] == rest[4]);
        assert(reader.rest() =~= rest.skip(5));
        let mut k: usize = 0;
        while k < 3
            invariant
                k <= 3,
                reader.wf(),
                reader.spec_data() == old(reader).spec_data(),
                rest == old(reader).rest(),
                rest.len() >= 5 + k,
                reader.rest() == rest.skip(5 + k),
            decreases 3 - k,
        {
            match reader.read_u8() {
                Ok(_) => {},
                Err(e) => return Err(e),
            }
            k = k + 1;
            assert(reader.rest() =~= rest.skip(5 + k));
        }
        let mut timestamps = [0u64; 3];
        let mut i: usize = 0;
        while i < 3
            invariant
                i <= 3,
                reader.wf(),
                reader.spec_data() == old(reader).spec_data(),
                rest == old(reader).rest(),
                rest.len() >= 8 + 8 * i,
                reader.rest() == rest.skip(8 + 8 * i),
                forall|j: int| 0 <= j < i ==> timestamps@[j] == be_u64_value(#[trigger] rest.skip(8 + 8 * j)),
            decreases 3 - i,
        {
            let t = match reader.read_u64_be() {
                Ok(v) => v,
                Err(e) => return Err(e),
            };
            timestamps[i] = t;
            i = i + 1;
            assert(reader.rest() =~= rest.skip(8 + 8 * i));
        }
        assert(timestamps@[0] == be_u64_value(rest.skip(8 + 8 * 0int)));
        assert(timestamps@[1] == be_u64_value(rest.skip(8 + 8 * 1int)));
        assert(timestamps@[2] == be_u64_value(rest.skip(8 + 8 * 2int)));
        Ok(ClockSyncPacket { count, timestamps, sender_ssrc })
    }

    /// Appends the header (0xFF 0xFF "CK") and the body; returns the size of
    /// the packet.
    pub fn write<W: ByteSink>(&self, writer: &mut W) -> (r: Result<usize, Error>)
        requires
            old(writer).sink_room() >= 36,
        ensures
            r matches Ok(n) && n == 36,
            final(writer).sink_contents() == old(writer).sink_contents() + seq![255u8, 255u8, 0x43u8, 0x4Bu8]
                + clock_sync_body(*self),
    {
        let _ = ControlPacket::write_header(writer, &[0x43, 0x4B]);
        put_u32_be(writer, self.sender_ssrc);
        writer.put_byte(self.count);
        let reserved = [0u8, 0, 0];
        writer.put_bytes(reserved.as_slice());
        put_u64_be(writer, self.timestamps[0]);
        put_u64_be(writer, self.timestamps[1]);
        put_u64_be(writer, self.timestamps[2]);
        assert(writer.sink_contents() =~= old(writer).sink_contents() + seq![255u8, 255u8, 0x43u8, 0x4Bu8]
            + clock_sync_body(*self));
        Ok(Self::SIZE)
    }
}

/// The bytes that `write` appends read back, through `ControlPacket::parse`,
/// as the same SSRC, count and timestamps.
pub proof fn lemma_write_then_parse(p: ClockSyncPacket)
    ensures
        ({
            let b = seq![255u8, 255u8, 0x43u8, 0x4Bu8] + clock_sync_body(p);
            &&& b.len() == 36
            &&& b[0] == 255 && b[1] == 255 && b[2] == 0x43 && b[3] == 0x4B
            &&& be_u32_value(b.skip(4)) == p.sender_ssrc
            &&& b[8] == p.count
            &&& be_u64_value(b.skip(12)) == p.timestamps[0]
            &&& be_u64_value(b.skip(20)) == p.timestamps[1]
            &&& be_u64_value(b.skip(28)) == p.timestamps[2]
        }),
{
    let b = seq![255u8, 255u8, 0x43u8, 0x4Bu8] + clock_sync_body(p);
    crate::endian::lemma_u32_be_roundtrip(p.sender_ssrc);
    crate::endian::lemma_u64_be_roundtrip(p.timestamps[0]);
    crate::endian::lemma_u64_be_roundtrip(p.timestamps[1]);
    crate::endian::lemma_u64_be_roundtrip(p.timestamps[2]);
    assert(b.skip(4).take(4) =~= u32_be_bytes(p.sender_ssrc));
    assert(be_u32_value(b.skip(4)) == be_u32_value(b.skip(4).take(4)));
    assert(b.skip(12).take(8) =~= u64_be_bytes(p.timestamps[0]));
    assert(b.skip(20).take(8) =~= u64_be_bytes(p.timestamps[1]));
    assert(b.skip(28).take(8) =~= u64_be_bytes(p.timestamps[2]));
    crate::packets::control_packets::clock_sync_packet::lemma_be_u64_prefix(b.skip(12));
    crate::packets::control_packets::clock_sync_packet::lemma_be_u64_prefix(b.skip(20));
    crate::packets::control_packets::clock_sync_packet::lemma_be_u64_prefix(b.skip(28));
}

} // verus!
