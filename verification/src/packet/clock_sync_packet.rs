//! A clock synchronisation packet with its header: 0xFF 0xFF "CK", the SSRC,
//! the count, three reserved bytes and three 64-bit timestamps.
use crate::endian::{be_u32_value, be_u64_value, read_u32_be, read_u64_be, u32_be_bytes, u64_be_bytes, write_u32_be, write_u64_be, tail_mut};
use crate::io::{Error, ErrorKind};
use vstd::prelude::*;

verus! {

#[derive(Debug, Clone, Copy, PartialEq, Eq)]
pub struct ClockSyncPacket {
    pub count: u8,
    pub timestamps: [u64; 3],
    pub sender_ssrc: u32,
}

/// The marker bytes and "CK".
pub open spec fn spec_has_valid_header(buffer: Seq<u8>) -> bool {
    buffer.len() >= 4 && buffer[0] == 255 && buffer[1] == 255 && buffer[2] == 0x43 && buffer[3] == 0x4B
}

/// The thirty-six bytes of a packet.
pub open spec fn clock_sync_packet_bytes(p: ClockSyncPacket) -> Seq<u8> {
    seq![255u8, 255u8, 0x43u8, 0x4Bu8] + u32_be_bytes(p.sender_ssrc) + seq![p.count, 0u8, 0u8, 0u8]
        + u64_be_bytes(p.timestamps[0]) + u64_be_bytes(p.timestamps[1]) + u64_be_bytes(p.timestamps[2])
}

impl ClockSyncPacket {
    /// The packet holds the fields that `buffer` holds.
    pub open spec fn is_read_from(&self, buffer: Seq<u8>) -> bool {
        &&& self.sender_ssrc == be_u32_value(buffer.skip(4))
        &&& self.count == buffer[8]
        &&& self.timestamps[0] == be_u64_value(buffer.skip(12))
        &&& self.timestamps[1] == be_u64_value(buffer.skip(20))
        &&& self.timestamps[2] == be_u64_value(buffer.skip(28))
    }

    /// The number of bytes of a packet.
    pub const SIZE: usize = 36;

    pub fn new(count: u8, timestamps: [u64; 3], sender_ssrc: u32) -> (p: Self)
        ensures
            p == (ClockSyncPacket { count, timestamps, sender_ssrc }),
    {
        ClockSyncPacket { count, timestamps, sender_ssrc }
    }

    /// Reads a packet. Fails with `InvalidData` on fewer than twelve bytes and
    /// on a header other than 0xFF 0xFF "CK". A packet with the header must
    /// have all thirty-six bytes.
    pub fn from_be_bytes(buffer: &[u8]) -> (r: Result<Self, Error>)
        requires
            buffer@.len() >= 12 && spec_has_valid_header(buffer@) ==> buffer@.len() >= 36,
        ensures
            match r {
                Ok(p) => {
                    &&& buffer@.len() >= 36
                    &&& spec_has_valid_header(buffer@)
                    &&& p.is_read_from(buffer@)
                },
                Err(e) => e.kind == ErrorKind::InvalidData && (buffer@.len() < 12 || !spec_has_valid_header(buffer@)),
            },
    {
        if buffer.len() < 12 {
            return Err(Error::new(ErrorKind::InvalidData));
        }
        if !Self::has_valid_header(buffer) {
            return Err(Error::new(ErrorKind::InvalidData));
        }
        let sender_ssrc = read_u32_be(&buffer[4..8]);
        assert(buffer@.subrange(4, 8) =~= buffer@.skip(4).take(4));
        let count = buffer[8];
        let mut timestamps = [0u64; 3];
        let mut i: usize = 0;
        while i < 3
            invariant
                i <= 3,
                buffer@.len() >= 36,
                forall|k: int| 0 <= k < i ==> timestamps@[k] == be_u64_value(#[trigger] buffer@.skip(12 + 8 * k)),
            decreases 3 - i,
        {
            let s = &buffer[12 + i * 8..20 + i * 8];
            assert(s@ =~= buffer@.skip(12 + 8 * i).take(8));
            proof {
                crate::packets::control_packets::clock_sync_packet::lemma_be_u64_prefix(buffer@.skip(12 + 8 * i));
            }
            timestamps[i] = read_u64_be(s);
            i = i + 1;
        }
        assert(timestamps@[0] == be_u64_value(buffer@.skip(12int + 8 * 0int)));
        assert(timestamps@[1] == be_u64_value(buffer@.skip(12int + 8 * 1int)));
        assert(timestamps@[2] == be_u64_value(buffer@.skip(12int + 8 * 2int)));
        Ok(ClockSyncPacket { count, timestamps, sender_ssrc })
    }

    fn has_valid_header(buffer: &[u8]) -> (r: bool)
        ensures
            r == spec_has_valid_header(buffer@),
    {
        buffer.len() >= 4 && buffer[0] == 255 && buffer[1] == 255 && buffer[2] == 0x43 && buffer[3] == 0x4B
    }

    /// Writes the thirty-six bytes of the packet at the front of `bytes`, which
    /// must hold them; returns the size of the packet value in memory.
    pub fn write_to_bytes(&self, bytes: &mut [u8]) -> (r: Result<usize, Error>)
        requires
            old(bytes)@.len() >= 36,
        ensures
            final(bytes)@ == clock_sync_packet_bytes(*self) + old(bytes)@.skip(36),
            r matches Ok(n) && n == vstd::layout::size_of::<ClockSyncPacket>(),
    {
        bytes[0] = 255;
        bytes[1] = 255;
        bytes[2] = 0x43;
        bytes[3] = 0x4B;
        {
            let t = tail_mut(bytes, 4);
            write_u32_be(t, self.sender_ssrc);
        }
        bytes[8] = self.count;
        bytes[9] = 0;
        bytes[10] = 0;
        bytes[11] = 0;
        {
            let t = tail_mut(bytes, 12);
            write_u64_be(t, self.timestamps[0]);
        }
        {
            let t = tail_mut(bytes, 20);
            write_u64_be(t, self.timestamps[1]);
        }
        {
            let t = tail_mut(bytes, 28);
            write_u64_be(t, self.timestamps[2]);
        }
        assert(bytes@ =~= clock_sync_packet_bytes(*self) + old(bytes)@.skip(36));
        Ok(core::mem::size_of::<Self>())
    }
}

/// The bytes that `write_to_bytes` writes read back, through `from_be_bytes`,
/// as the same packet.
#[verifier::spinoff_prover]
#[verifier::rlimit(30)]
pub proof fn lemma_write_then_read(p: ClockSyncPacket, rest: Seq<u8>)
    ensures
        ({
            let b = clock_sync_packet_bytes(p) + rest;
            &&& b.len() >= 36
            &&& spec_has_valid_header(b)
            &&& p.is_read_from(b)
        }),
{
    let b = clock_sync_packet_bytes(p) + rest;
    crate::endian::lemma_u32_be_roundtrip(p.sender_ssrc);
    crate::endian::lemma_u64_be_roundtrip(p.timestamps[0]);
    crate::endian::lemma_u64_be_roundtrip(p.timestamps[1]);
    crate::endian::lemma_u64_be_roundtrip(p.timestamps[2]);
    assert(b.skip(4).take(4) =~= u32_be_bytes(p.sender_ssrc));
    assert(be_u32_value(b.skip(4)) == be_u32_value(b.skip(4).take(4)));
    assert(b.skip(12).take(8) =~= u64_be_bytes(p.timestamps[0]));
    assert(b.skip(20).take(8) =~= u64_be_bytes(p.timestamps[1]));
    assert(b.skip(28).take(8) =~= u64_be_bytes(p.timestamps[2]));
    crate::packets::control_packets::clock_sync_packet::lemma_be_u64_prefix(b.skip(12));
    crate::packets::control_packets::clock_sync_packet::lemma_be_u64_prefix(b.skip(20));
    crate::packets::control_packets::clock_sync_packet::lemma_be_u64_prefix(b.skip(28));
}

} // verus!
