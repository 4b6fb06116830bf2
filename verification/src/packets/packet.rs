//! Telling a MIDI packet from a session control packet, and reading either.
use super::control_packets::control_packet::{control_packet_error, control_packet_of, ControlPacket};
use super::midi_packets::midi_packet::MidiPacket;
use crate::io::{Error, ErrorKind};
use vstd::prelude::*;

verus! {

#[derive(Debug)]
pub enum RtpMidiPacket<'a> {
    Midi(MidiPacket<'a>),
    Control(ControlPacket<'a>),
}

impl<'a> RtpMidiPacket<'a> {
    /// A control packet when `bytes` starts with the two marker bytes, else a
    /// MIDI packet. Fails with `InvalidData` when the packet cannot be read.
    pub fn parse(bytes: &'a [u8]) -> (r: Result<Self, Error>)
        ensures
            bytes@.len() >= 2 && bytes@[0] == 255 && bytes@[1] == 255 ==> match r {
                Ok(p) => control_packet_error(bytes@) is None && (p matches RtpMidiPacket::Control(c)
                    && control_packet_of(c, bytes@)),
                Err(e) => control_packet_error(bytes@) is Some && e.kind == ErrorKind::InvalidData,
            },
            !(bytes@.len() >= 2 && bytes@[0] == 255 && bytes@[1] == 255) ==> match r {
                Ok(p) => bytes@.len() >= 12 && (p matches RtpMidiPacket::Midi(m) && m.spec_data()
                    == bytes@),
                Err(e) => bytes@.len() < 12 && e.kind == ErrorKind::InvalidData,
            },
    {
        if ControlPacket::is_control_packet(bytes) {
            match ControlPacket::try_from_bytes(bytes) {
                Ok(packet) => Ok(RtpMidiPacket::Control(packet)),
                Err(_) => Err(Error::new(ErrorKind::InvalidData)),
            }
        } else {
            match MidiPacket::ref_from_prefix(bytes) {
                Ok(packet) => Ok(RtpMidiPacket::Midi(packet)),
                Err(_) => Err(Error::new(ErrorKind::InvalidData)),
            }
        }
    }
}

} // verus!
