//! The body of a clock synchronisation packet: the sender's SSRC, a count and
//! three 64-bit timestamps, in network byte order.
use crate::endian::{be_u32_value, be_u64_value, read_u32_be, read_u64_be, u32_be_bytes, u64_be_bytes};
use crate::io::{Error, ErrorKind};
use crate::stream::{put_u32_be, put_u64_be, ByteSink};
use vstd::prelude::*;

verus! {

/// Four bytes of SSRC, one of count, three reserved, then three timestamps of
/// eight bytes each.
#[derive(Debug, Clone, Copy, PartialEq, Eq)]
pub struct ClockSyncPacket {
    pub sender_ssrc: u32,
    pub count: u8,
    pub reserved: [u8; 3],
    pub timestamps: [u64; 3],
}

/// The bytes of a clock synchronisation body.
pub open spec fn clock_sync_bytes(sender_ssrc: u32, count: u8, reserved: Seq<u8>, timestamps: Seq<u64>) -> Seq<u8> {
    u32_be_bytes(sender_ssrc) + seq![count] + reserved + u64_be_bytes(timestamps[0]) + u64_be_bytes(
        timestamps[1],
    ) + u64_be_bytes(timestamps[2])
}

impl ClockSyncPacket {
    /// The number of bytes of the body.
    pub const SIZE: usize = 32;

    /// A body with these fields and the reserved bytes zero.
    pub fn new(count: u8, timestamps: [u64; 3], sender_ssrc: u32) -> (p: Self)
        ensures
            p.count == count,
            p.timestamps == timestamps,
            p.sender_ssrc == sender_ssrc,
            p.reserved@ == seq![0u8, 0u8, 0u8],
    {
        let p = ClockSyncPacket { sender_ssrc, count, reserved: [0; 3], timestamps };
        assert(p.reserved@ =~= seq![0u8, 0u8, 0u8]);
        p
    }

    /// The body that `bytes` holds; it must be exactly thirty-two bytes long,
    /// else `InvalidData`.
    pub fn ref_from_bytes(bytes: &[u8]) -> (r: Result<Self, Error>)
        ensures
            match r {
                Ok(p) => {
                    &&& bytes@.len() == 32
                    &&& p.sender_ssrc == be_u32_value(bytes@)
                    &&& p.count == bytes@[4]
                    &&& p.reserved@ == bytes@.subrange(5, 8)
                    &&& p.timestamps[0] == be_u64_value(bytes@.skip(8))
                    &&& p.timestamps[1] == be_u64_value(bytes@.skip(16))
                    &&& p.timestamps[2] == be_u64_value(bytes@.skip(24))
                },
                Err(e) => bytes@.len() != 32 && e.kind == ErrorKind::InvalidData,
            },
    {
        if bytes.len() != 32 {
            return Err(Error::new(ErrorKind::InvalidData));
        }
        let sender_ssrc = read_u32_be(bytes);
        let count = bytes[4];
        let reserved = [bytes[5], bytes[6], bytes[7]];
        let t0 = read_u64_be(&bytes[8..16]);
        let t1 = read_u64_be(&bytes[16..24]);
        let t2 = read_u64_be(&bytes[24..32]);
        assert(bytes@.subrange(8, 16) =~= bytes@.skip(8).take(8));
        assert(bytes@.subrange(16, 24) =~= bytes@.skip(16).take(8));
        assert(bytes@.subrange(24, 32) =~= bytes@.skip(24).take(8));
        proof {
            lemma_be_u64_prefix(bytes@.skip(8));
            lemma_be_u64_prefix(bytes@.skip(16));
            lemma_be_u64_prefix(bytes@.skip(24));
        }
        let p = ClockSyncPacket { sender_ssrc, count, reserved, timestamps: [t0, t1, t2] };
        assert(p.reserved@ =~= bytes@.subrange(5, 8));
        Ok(p)
    }

    /// Appends the thirty-two bytes of the body.
    pub fn write<W: ByteSink>(&self, writer: &mut W)
        requires
            old(writer).sink_room() >= 32,
        ensures
            final(writer).sink_contents() == old(writer).sink_contents() + clock_sync_bytes(
                self.sender_ssrc,
                self.count,
                self.reserved@,
                self.timestamps@,
            ),
    {
        put_u32_be(writer, self.sender_ssrc);
        writer.put_byte(self.count);
        writer.put_bytes(self.reserved.as_slice());
        put_u64_be(writer, self.timestamps[0]);
        put_u64_be(writer, self.timestamps[1]);
        put_u64_be(writer, self.timestamps[2]);
        assert(writer.sink_contents() =~= old(writer).sink_contents() + clock_sync_bytes(
            self.sender_ssrc,
            self.count,
            self.reserved@,
            self.timestamps@,
        ));
    }
}

/// The value of eight bytes depends only on those eight.
pub proof fn lemma_be_u64_prefix(s: Seq<u8>)
    requires
        s.len() >= 8,
    ensures
        be_u64_value(s.take(8)) == be_u64_value(s),
{
    assert(s.take(8).skip(4)[0] == s.skip(4)[0]);
    assert(s.take(8).skip(4)[1] == s.skip(4)[1]);
    assert(s.take(8).skip(4)[2] == s.skip(4)[2]);
    assert(s.take(8).skip(4)[3] == s.skip(4)[3]);
}

} // verus!
