//! Telling a MIDI packet from a session control packet, and reading either.
use super::clock_sync_packet::spec_has_valid_header;
use super::control_packet::{control_parse_ok, ControlPacket};
use super::midi_packet::{midi_parse_ok, packet_in_bounds, MidiPacket};
use crate::io::{Error, ErrorKind};
use vstd::prelude::*;

verus! {

#[derive(Debug)]
pub enum RtpMidiPacket {
    Midi(MidiPacket),
    Control(ControlPacket),
}

impl RtpMidiPacket {
    /// A control packet when `bytes` starts with the two marker bytes, else a
    /// MIDI packet. Fails with `InvalidData` on empty input and when the packet
    /// cannot be read.
    pub fn parse(bytes: &[u8]) -> (r: Result<Self, Error>)
        requires
            bytes@.len() > 2 && bytes@[0] == 255 && bytes@[1] == 255 ==> bytes@.len() >= 4,
            bytes@.len() >= 12 && spec_has_valid_header(bytes@) ==> bytes@.len() >= 36,
            packet_in_bounds(bytes@),
        ensures
            bytes@.len() == 0 ==> (r matches Err(e) && e.kind == ErrorKind::InvalidData),
            bytes@.len() >= 2 && bytes@[0] == 255 && bytes@[1] == 255 ==> match r {
                Ok(p) => p is Control && control_parse_ok(bytes@),
                Err(e) => e.kind == ErrorKind::InvalidData && !control_parse_ok(bytes@),
            },
            bytes@.len() > 0 && !(bytes@.len() >= 2 && bytes@[0] == 255 && bytes@[1] == 255) ==> match r {
                Ok(p) => p is Midi && midi_parse_ok(bytes@),
                Err(e) => e.kind == ErrorKind::InvalidData && !midi_parse_ok(bytes@),
            },
    {
        if bytes.len() == 0 {
            return Err(Error::new(ErrorKind::InvalidData));
        }
        if ControlPacket::is_control_packet(bytes) {
            match ControlPacket::parse(bytes) {
                Ok(p) => Ok(RtpMidiPacket::Control(p)),
                Err(_) => Err(Error::new(ErrorKind::InvalidData)),
            }
        } else {
            match MidiPacket::parse(bytes) {
                Ok(p) => Ok(RtpMidiPacket::Midi(p)),
                Err(_) => Err(Error::new(ErrorKind::InvalidData)),
            }
        }
    }
}

} // verus!
