//! The header of a session control packet: the two marker bytes and the
//! two-letter command after them.
use crate::text::{string_from_utf8_lossy, utf8_lossy};
use vstd::prelude::*;

verus! {

#[derive(Debug)]
pub struct ControlPacket {
    pub command: Option<String>,
}

/// `buffer` starts with the two marker bytes.
pub open spec fn spec_has_valid_header(buffer: Seq<u8>) -> bool {
    buffer.len() >= 2 && buffer[0] == 255 && buffer[1] == 255
}

impl ControlPacket {
    /// The header of a control packet: `None` without the marker bytes, else
    /// the command as text when bytes 2 and 3 are there. A buffer of exactly
    /// three bytes is left out.
    pub fn parse_header(buffer: &[u8]) -> (r: Option<Self>)
        requires
            spec_has_valid_header(buffer@) ==> buffer@.len() != 3,
        ensures
            match r {
                None => !spec_has_valid_header(buffer@),
                Some(p) => spec_has_valid_header(buffer@) && match p.command {
                    Some(c) => buffer@.len() > 2 && c@ == utf8_lossy(buffer@.subrange(2, 4)),
                    None => buffer@.len() <= 2,
                },
            },
    {
        if Self::has_valid_header(buffer) {
            let command_type = if buffer.len() > 2 && buffer[0] == 255 && buffer[1] == 255 {
                Some(string_from_utf8_lossy(&buffer[2..4]))
            } else {
                None
            };
            Some(ControlPacket { command: command_type })
        } else {
            None
        }
    }

    fn has_valid_header(buffer: &[u8]) -> (r: bool)
        ensures
            r == spec_has_valid_header(buffer@),
    {
        buffer.len() >= 2 && buffer[0] == 255 && buffer[1] == 255
    }
}

} // verus!
