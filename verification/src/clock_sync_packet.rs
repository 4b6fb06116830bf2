//! A clock synchronisation packet read with 32-bit timestamps, each present
//! only when the packet is long enough for it.
use crate::endian::{be_u32_value, u32_from_be_bytes, u32_to_be_bytes, u32_be_bytes, u64_be_bytes, u64_from_be_bytes, u64_to_be_bytes};
use crate::stream::put_slice;
use vstd::prelude::*;

verus! {

#[derive(Debug, Clone, Copy, PartialEq, Eq)]
pub struct ClockSyncPacket {
    pub count: u8,
    pub timestamps: [Option<u64>; 3],
    pub sender_ssrc: u32,
}

/// The `k`-th timestamp of `buffer`: the four bytes at `12 + 4k` when present.
pub open spec fn timestamp_at(buffer: Seq<u8>, k: int) -> Option<u64> {
    if buffer.len() >= 16 + 4 * k {
        Some(be_u32_value(buffer.skip(12 + 4 * k)) as u64)
    } else {
        None
    }
}

/// The marker bytes and "CK".
pub open spec fn spec_has_valid_header(buffer: Seq<u8>) -> bool {
    buffer.len() >= 4 && buffer[0] == 255 && buffer[1] == 255 && buffer[2] == 0x43 && buffer[3] == 0x4B
}

/// The bytes of the timestamps that are present, eight each.
pub open spec fn present_timestamps_bytes(ts: Seq<Option<u64>>) -> Seq<u8>
    decreases ts.len(),
{
    if ts.len() == 0 {
        Seq::empty()
    } else {
        present_timestamps_bytes(ts.drop_last()) + match ts.last() {
            Some(t) => u64_be_bytes(t),
            None => Seq::<u8>::empty(),
        }
    }
}

/// Four bytes read as a 64-bit number with four zero bytes in front.
fn u32_in_u64(b0: u8, b1: u8, b2: u8, b3: u8) -> (r: u64)
    ensures
        r == be_u32_value(seq![b0, b1, b2, b3]),
{
    let r = u64_from_be_bytes([0, 0, 0, 0, b0, b1, b2, b3]);
    assert(seq![0u8, 0u8, 0u8, 0u8, b0, b1, b2, b3].skip(4) =~= seq![b0, b1, b2, b3]);
    r
}

impl ClockSyncPacket {
    /// Reads the packet: the SSRC from bytes 4 to 7, the count from byte 8 and
    /// up to three four-byte timestamps from byte 12 on. Fails on fewer than
    /// twelve bytes and on a header other than 0xFF 0xFF "CK".
    pub fn parse(buffer: &[u8]) -> (r: Result<Self, String>)
        ensures
            buffer@.len() < 12 ==> (r matches Err(e) && e@ == "Buffer too short to be a valid clock sync packet"@),
            buffer@.len() >= 12 && !spec_has_valid_header(buffer@) ==> (r matches Err(e) && e@
                == "Invalid header: does not start with 0xFFFF"@),
            buffer@.len() >= 12 && spec_has_valid_header(buffer@) ==> (r matches Ok(p) && p.sender_ssrc
                == be_u32_value(buffer@.skip(4)) && p.count == buffer@[8] && p.timestamps[0] == timestamp_at(
                buffer@,
                0,
            ) && p.timestamps[1] == timestamp_at(buffer@, 1) && p.timestamps[2] == timestamp_at(buffer@, 2)),
    {
        if buffer.len() < 12 {
            return Err("Buffer too short to be a valid clock sync packet".to_owned());
        }
        if !Self::has_valid_header(buffer) {
            return Err("Invalid header: does not start with 0xFFFF".to_owned());
        }
        let sender_ssrc = u32_from_be_bytes([buffer[4], buffer[5], buffer[6], buffer[7]]);
        assert(seq![buffer@[4], buffer@[5], buffer@[6], buffer@[7]] =~= buffer@.skip(4).take(4));
        let count = buffer[8];
        let timestamps = [
            if buffer.len() >= 16 {
                assert(seq![buffer@[12], buffer@[13], buffer@[14], buffer@[15]] =~= buffer@.skip(12).take(4));
                Some(u32_in_u64(buffer[12], buffer[13], buffer[14], buffer[15]))
            } else {
                None
            },
            if buffer.len() >= 20 {
                assert(seq![buffer@[16], buffer@[17], buffer@[18], buffer@[19]] =~= buffer@.skip(16).take(4));
                Some(u32_in_u64(buffer[16], buffer[17], buffer[18], buffer[19]))
            } else {
                None
            },
            if buffer.len() >= 24 {
                assert(seq![buffer@[20], buffer@[21], buffer@[22], buffer@[23]] =~= buffer@.skip(20).take(4));
                Some(u32_in_u64(buffer[20], buffer[21], buffer[22], buffer[23]))
            } else {
                None
            },
        ];
        Ok(ClockSyncPacket { count, timestamps, sender_ssrc })
    }

    fn has_valid_header(buffer: &[u8]) -> (r: bool)
        ensures
            r == spec_has_valid_header(buffer@),
    {
        buffer.len() >= 4 && buffer[0] == 255 && buffer[1] == 255 && buffer[2] == 0x43 && buffer[3] == 0x4B
    }

    /// The bytes of the packet: 0xFF 0xFF "CK", the SSRC, the count, three zero
    /// bytes, then each timestamp that is present as eight bytes.
    pub fn to_bytes(&self) -> (v: Vec<u8>)
        ensures
            v@ == seq![255u8, 255u8, 0x43u8, 0x4Bu8] + u32_be_bytes(self.sender_ssrc) + seq![self.count, 0u8, 0u8, 0u8]
                + present_timestamps_bytes(self.timestamps@),
    {
        let mut buffer: Vec<u8> = Vec::new();
        buffer.push(0xFF);
        buffer.push(0xFF);
        buffer.push(0x43);
        buffer.push(0x4B);
        let ssrc = u32_to_be_bytes(self.sender_ssrc);
        put_slice(&mut buffer, ssrc.as_slice());
        buffer.push(self.count);
        let reserved = [0u8, 0, 0];
        put_slice(&mut buffer, reserved.as_slice());
        let ghost head = buffer@;
        let mut k: usize = 0;
        assert(self.timestamps@.take(0) =~= Seq::<Option<u64>>::empty());
        while k < 3
            invariant
                k <= 3,
                buffer@ == head + present_timestamps_bytes(self.timestamps@.take(k as int)),
            decreases 3 - k,
        {
            if let Some(ts) = self.timestamps[k] {
                let b = u64_to_be_bytes(ts);
                put_slice(&mut buffer, b.as_slice());
            }
            assert(self.timestamps@.take(k + 1).drop_last() =~= self.timestamps@.take(k as int));
            k = k + 1;
        }
        assert(self.timestamps@.take(3) =~= self.timestamps@);
        assert(head =~= seq![255u8, 255u8, 0x43u8, 0x4Bu8] + u32_be_bytes(self.sender_ssrc) + seq![self.count, 0u8, 0u8, 0u8]);
        buffer
    }
}

/// A packet that `parse` reads holds the SSRC of bytes 4 to 7 and the count
/// of byte 8, and its first, second and third timestamps are the big-endian
/// numbers of bytes 12 to 15, 16 to 19 and 20 to 23, each present exactly when
/// the buffer reaches its last byte.
pub proof fn lemma_parse_fields(buffer: Seq<u8>, p: ClockSyncPacket)
    requires
        buffer.len() >= 12,
        spec_has_valid_header(buffer),
        p.sender_ssrc == be_u32_value(buffer.skip(4)),
        p.count == buffer[8],
        p.timestamps[0] == timestamp_at(buffer, 0),
        p.timestamps[1] == timestamp_at(buffer, 1),
        p.timestamps[2] == timestamp_at(buffer, 2),
    ensures
        p.sender_ssrc == buffer[4] * 0x100_0000 + buffer[5] * 0x1_0000 + buffer[6] * 0x100 + buffer[7],
        p.count == buffer[8],
        p.timestamps[0] == if buffer.len() >= 16 {
            Some((buffer[12] * 0x100_0000 + buffer[13] * 0x1_0000 + buffer[14] * 0x100 + buffer[15]) as u64)
        } else {
            None
        },
        p.timestamps[1] == if buffer.len() >= 20 {
            Some((buffer[16] * 0x100_0000 + buffer[17] * 0x1_0000 + buffer[18] * 0x100 + buffer[19]) as u64)
        } else {
            None
        },
        p.timestamps[2] == if buffer.len() >= 24 {
            Some((buffer[20] * 0x100_0000 + buffer[21] * 0x1_0000 + buffer[22] * 0x100 + buffer[23]) as u64)
        } else {
            None
        },
{
}

} // verus!
