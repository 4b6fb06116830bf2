//! Session control packets told apart by their two-letter command.
use super::clock_sync_packet::{spec_has_valid_header, ClockSyncPacket};
use super::session_initiation_packet::SessionInitiationPacket;
use crate::text::{string_from_utf8_lossy, utf8_lossy};
use vstd::string::StringExecFns;
use vstd::prelude::*;

verus! {

#[derive(Debug)]
pub enum ControlPacket {
    ClockSync(ClockSyncPacket),
    SessionInitiation(SessionInitiationPacket),
    EndSession,
}

/// Bytes 2 and 3 of `buffer` are the letters `a` and `b`.
pub open spec fn command_is(buffer: Seq<u8>, a: u8, b: u8) -> bool {
    buffer[2] == a && buffer[3] == b
}

/// The buffers from which `parse` reads a packet.
pub open spec fn control_parse_ok(buffer: Seq<u8>) -> bool {
    &&& buffer.len() > 2 && buffer[0] == 255 && buffer[1] == 255
    &&& (command_is(buffer, 0x43, 0x4B) && buffer.len() >= 12) || (command_is(buffer, 0x49, 0x4E)
        && buffer.len() >= 16) || command_is(buffer, 0x42, 0x59)
}

impl ControlPacket {
    /// Reads a control packet by its command: "CK" a clock synchronisation
    /// packet, "IN" a session initiation packet, "BY" the end of the session.
    /// Fails without the marker bytes, as reading the packet fails, and on any
    /// other command.
    pub fn parse(buffer: &[u8]) -> (r: Result<Self, String>)
        requires
            buffer@.len() > 2 && buffer@[0] == 255 && buffer@[1] == 255 ==> buffer@.len() >= 4,
            buffer@.len() >= 12 && spec_has_valid_header(buffer@) ==> buffer@.len() >= 36,
        ensures
            !(buffer@.len() > 2 && buffer@[0] == 255 && buffer@[1] == 255) ==> (r matches Err(e) && e@
                == "Invalid control packet header"@),
            buffer@.len() > 2 && buffer@[0] == 255 && buffer@[1] == 255 ==> if command_is(buffer@, 0x43, 0x4B) {
                if buffer@.len() < 12 {
                    r matches Err(e) && e@ == "Buffer too short to be a valid clock sync packet"@
                } else {
                    r matches Ok(ControlPacket::ClockSync(p)) && p.is_read_from(buffer@)
                }
            } else if command_is(buffer@, 0x49, 0x4E) {
                if buffer@.len() < 16 {
                    r matches Err(e) && e@ == "Buffer too short to be a valid session initiation packet"@
                } else {
                    r matches Ok(ControlPacket::SessionInitiation(p)) && p.is_read_from(buffer@)
                }
            } else if command_is(buffer@, 0x42, 0x59) {
                r matches Ok(ControlPacket::EndSession)
            } else {
                r matches Err(e) && e@ == "Unknown control packet command: "@ + utf8_lossy(buffer@.subrange(2, 4))
            },
    {
        if !(buffer.len() > 2 && buffer[0] == 255 && buffer[1] == 255) {
            return Err("Invalid control packet header".to_owned());
        }
        let c0 = buffer[2];
        let c1 = buffer[3];
        if c0 == 0x43 && c1 == 0x4B {
            match ClockSyncPacket::from_be_bytes(buffer) {
                Ok(clock_sync_packet) => Ok(ControlPacket::ClockSync(clock_sync_packet)),
                Err(_) => Err("Buffer too short to be a valid clock sync packet".to_owned()),
            }
        } else if c0 == 0x49 && c1 == 0x4E {
            match SessionInitiationPacket::parse(buffer) {
                Ok(session_initiation_packet) => Ok(ControlPacket::SessionInitiation(session_initiation_packet)),
                Err(_) => Err("Buffer too short to be a valid session initiation packet".to_owned()),
            }
        } else if c0 == 0x42 && c1 == 0x59 {
            Ok(ControlPacket::EndSession)
        } else {
            let command = string_from_utf8_lossy(&buffer[2..4]);
            let mut message = String::from_str("Unknown control packet command: ");
            message.append(command.as_str());
            Err(message)
        }
    }

    /// Whether `buffer` starts with the two marker bytes.
    pub fn is_control_packet(buffer: &[u8]) -> (r: bool)
        ensures
            r == (buffer@.len() >= 2 && buffer@[0] == 255 && buffer@[1] == 255),
    {
        buffer.len() >= 2 && buffer[0] == 255 && buffer[1] == 255
    }
}

} // verus!
