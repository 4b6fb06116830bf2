//! Chapter D of a system journal: a flag byte, then one byte for each flag set
//! among its lower seven bits.
use vstd::prelude::*;

verus! {

pub struct SystemChapterD {
    flags: u8,
    reset: Option<u8>,
    tune_request: Option<u8>,
    song_select: Option<u8>,
    undefined_system_common_j: Option<u8>,
    undefined_system_common_k: Option<u8>,
    undefined_system_realtime_y: Option<u8>,
    undefined_system_realtime_z: Option<u8>,
}

/// The byte at `index` when bit `bit` of `flags` is set.
pub open spec fn field_if(flags: u8, bit: u8, bytes: Seq<u8>, index: int) -> Option<u8> {
    if flags & bit != 0 {
        Some(bytes[index])
    } else {
        None
    }
}

/// `bytes` holds a byte at each index whose flag is set.
pub open spec fn chapter_d_in_bounds(bytes: Seq<u8>) -> bool {
    &&& bytes.len() >= 1
    &&& bytes[0] & 0x01 != 0 ==> bytes.len() > 1
    &&& bytes[0] & 0x02 != 0 ==> bytes.len() > 2
    &&& bytes[0] & 0x04 != 0 ==> bytes.len() > 3
    &&& bytes[0] & 0x08 != 0 ==> bytes.len() > 4
    &&& bytes[0] & 0x10 != 0 ==> bytes.len() > 5
    &&& bytes[0] & 0x20 != 0 ==> bytes.len() > 6
    &&& bytes[0] & 0x40 != 0 ==> bytes.len() > 7
}

impl SystemChapterD {
    pub closed spec fn spec_fields(&self) -> (u8, Option<u8>, Option<u8>, Option<u8>, Option<u8>, Option<u8>, Option<u8>, Option<u8>) {
        (
            self.flags,
            self.reset,
            self.tune_request,
            self.song_select,
            self.undefined_system_common_j,
            self.undefined_system_common_k,
            self.undefined_system_realtime_y,
            self.undefined_system_realtime_z,
        )
    }

    /// Reads the flag byte, then for each of its lower seven bits that is set
    /// the byte at that bit's place (bit 0 at index 1, up to bit 6 at index 7).
    pub fn from_be_bytes(bytes: &[u8]) -> (r: Result<Self, crate::io::Error>)
        requires
            chapter_d_in_bounds(bytes@),
        ensures
            r matches Ok(c) && c.spec_fields() == (
                bytes@[0],
                field_if(bytes@[0], 0x01, bytes@, 1),
                field_if(bytes@[0], 0x02, bytes@, 2),
                field_if(bytes@[0], 0x04, bytes@, 3),
                field_if(bytes@[0], 0x08, bytes@, 4),
                field_if(bytes@[0], 0x10, bytes@, 5),
                field_if(bytes@[0], 0x20, bytes@, 6),
                field_if(bytes@[0], 0x40, bytes@, 7),
            ),
    {
        let flags = bytes[0];
        let reset = if flags & 0b0000_0001 != 0 {
            Some(bytes[1])
        } else {
            None
        };
        let tune_request = if flags & 0b0000_0010 != 0 {
            Some(bytes[2])
        } else {
            None
        };
        let song_select = if flags & 0b0000_0100 != 0 {
            Some(bytes[3])
        } else {
            None
        };
        let undefined_system_common_j = if flags & 0b0000_1000 != 0 {
            Some(bytes[4])
        } else {
            None
        };
        let undefined_system_common_k = if flags & 0b0001_0000 != 0 {
            Some(bytes[5])
        } else {
            None
        };
        let undefined_system_realtime_y = if flags & 0b0010_0000 != 0 {
            Some(bytes[6])
        } else {
            None
        };
        let undefined_system_realtime_z = if flags & 0b0100_0000 != 0 {
            Some(bytes[7])
        } else {
            None
        };
        Ok(SystemChapterD {
            flags,
            reset,
            tune_request,
            song_select,
            undefined_system_common_j,
            undefined_system_common_k,
            undefined_system_realtime_y,
            undefined_system_realtime_z,
        })
    }
}

} // verus!
