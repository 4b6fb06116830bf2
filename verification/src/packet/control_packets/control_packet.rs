//! Session control packets read from a buffer through a byte stream.
use super::clock_sync_packet::ClockSyncPacket;
use super::session_initiation_packet::SessionInitiationPacket;
use crate::endian::{be_u32_value, be_u64_value};
use crate::io::{Error, ErrorKind};
use crate::util::spec_optional_string;
use crate::stream::{put_slice, ByteReader, ByteSink};
use vstd::prelude::*;

verus! {

#[derive(Debug)]
pub enum ControlPacket {
    ClockSync(ClockSyncPacket),
    SessionInitiation(SessionInitiationPacket),
}

/// Bytes 2 and 3 of `buffer` are the letters `a` and `b`.
pub open spec fn command_is(buffer: Seq<u8>, a: u8, b: u8) -> bool {
    buffer[2] == a && buffer[3] == b
}

/// The command is one of the session initiation commands.
pub open spec fn is_session_command(buffer: Seq<u8>) -> bool {
    command_is(buffer, 0x4F, 0x4B) || command_is(buffer, 0x49, 0x4E) || command_is(buffer, 0x4E, 0x4F)
        || command_is(buffer, 0x42, 0x59)
}

impl ControlPacket {
    /// Reads a control packet: the marker bytes, the command, then a clock
    /// synchronisation body for "CK" or a session initiation body for "OK",
    /// "IN", "NO" and "BY". Fails with `InvalidData` on fewer than four bytes,
    /// without the marker, and on any other command; otherwise as reading the
    /// body fails.
    pub fn parse(buffer: &[u8]) -> (r: Result<ControlPacket, Error>)
        ensures
            buffer@.len() < 4 ==> (r matches Err(e) && e.kind == ErrorKind::InvalidData),
            buffer@.len() >= 4 && !(buffer@[0] == 255 && buffer@[1] == 255) ==> (r matches Err(e) && e.kind
                == ErrorKind::InvalidData),
            buffer@.len() >= 4 && buffer@[0] == 255 && buffer@[1] == 255 && !command_is(buffer@, 0x43, 0x4B)
                && !is_session_command(buffer@) ==> (r matches Err(e) && e.kind == ErrorKind::InvalidData),
            buffer@.len() >= 4 && buffer@[0] == 255 && buffer@[1] == 255 && command_is(buffer@, 0x43, 0x4B)
                ==> if buffer@.len() >= 36 {
                r matches Ok(ControlPacket::ClockSync(p)) && p.sender_ssrc == be_u32_value(buffer@.skip(4))
                    && p.count == buffer@[8] && p.timestamps[0] == be_u64_value(buffer@.skip(12))
                    && p.timestamps[1] == be_u64_value(buffer@.skip(20)) && p.timestamps[2] == be_u64_value(
                    buffer@.skip(28),
                )
            } else {
                r matches Err(e) && e.kind == ErrorKind::UnexpectedEof
            },
            buffer@.len() >= 4 && buffer@[0] == 255 && buffer@[1] == 255 && is_session_command(buffer@) ==> if (
            buffer@.len() >= 16 && spec_optional_string(buffer@.skip(16)) is Ok) {
                r matches Ok(ControlPacket::SessionInitiation(p)) && p.spec_body().is_read_from(buffer@.skip(4))
                    && p.spec_command() == buffer@.subrange(2, 4)
            } else {
                r matches Err(e) && e.kind == ErrorKind::UnexpectedEof
            },
    {
        if buffer.len() < 4 {
            return Err(Error::new(ErrorKind::InvalidData));
        }
        if !(buffer[0] == 255 && buffer[1] == 255) {
            return Err(Error::new(ErrorKind::InvalidData));
        }
        let command = [buffer[2], buffer[3]];
        let mut body: Vec<u8> = Vec::new();
        put_slice(&mut body, &buffer[4..buffer.len()]);
        let mut reader = ByteReader::new(body);
        assert(body@ =~= buffer@.skip(4));
        assert(command@ =~= buffer@.subrange(2, 4));
        proof {
            if buffer@.len() >= 36 {
                assert(buffer@.skip(4).skip(4) =~= buffer@.skip(8));
                assert(buffer@.skip(4).skip(8) =~= buffer@.skip(12));
                assert(buffer@.skip(4).skip(16) =~= buffer@.skip(20));
                assert(buffer@.skip(4).skip(24) =~= buffer@.skip(28));
            }
            if buffer@.len() >= 16 {
                assert(buffer@.skip(4).skip(12) =~= buffer@.skip(16));
            }
        }
        if command[0] == 0x43 && command[1] == 0x4B {
            match ClockSyncPacket::read(&mut reader) {
                Ok(clock_sync_packet) => Ok(ControlPacket::ClockSync(clock_sync_packet)),
                Err(e) => Err(e),
            }
        } else if (command[0] == 0x4F && command[1] == 0x4B) || (command[0] == 0x49 && command[1] == 0x4E)
            || (command[0] == 0x4E && command[1] == 0x4F) || (command[0] == 0x42 && command[1] == 0x59) {
            match SessionInitiationPacket::read(&mut reader, command.as_slice()) {
                Ok(body) => Ok(ControlPacket::SessionInitiation(body)),
                Err(e) => Err(e),
            }
        } else {
            Err(Error::new(ErrorKind::InvalidData))
        }
    }

    /// Appends the marker bytes and the command; returns four.
    pub fn write_header<W: ByteSink>(writer: &mut W, command: &[u8; 2]) -> (r: Result<usize, Error>)
        requires
            old(writer).sink_room() >= 4,
        ensures
            r matches Ok(n) && n == 4,
            final(writer).sink_contents() == old(writer).sink_contents() + seq![255u8, 255u8] + command@,
            final(writer).sink_room() == old(writer).sink_room() - 4,
    {
        let marker = [255u8, 255];
        writer.put_bytes(marker.as_slice());
        writer.put_bytes(command.as_slice());
        assert(writer.sink_contents() =~= old(writer).sink_contents() + seq![255u8, 255u8] + command@);
        Ok(4)
    }

    /// Whether `buffer` has four bytes or more and starts with the marker bytes.
    pub fn is_control_packet(buffer: &[u8]) -> (r: bool)
        ensures
            r == (buffer@.len() >= 4 && buffer@[0] == 255 && buffer@[1] == 255),
    {
        buffer.len() >= 4 && buffer[0] == 255 && buffer[1] == 255
    }
}

} // verus!
