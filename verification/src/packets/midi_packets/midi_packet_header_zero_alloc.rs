//! The twelve-byte RTP header of a MIDI packet, read in place.
use super::midi_packet_header::MidiPacketHeaderFlags;
use crate::endian::{be_u16_value, be_u32_value, u16_from_be_bytes, u32_from_be_bytes};
use vstd::prelude::*;

verus! {

pub const MIDI_PACKET_HEADER_SIZE: usize = 12;

/// The header bytes: flags, sequence number, timestamp and SSRC, each most
/// significant byte first.
#[derive(Debug)]
pub struct MidiPacketHeaderZeroAlloc<'a> {
    pub data: &'a [u8; 12],
}

impl<'a> MidiPacketHeaderZeroAlloc<'a> {
    /// The number of header bytes.
    pub fn size() -> (n: usize)
        ensures
            n == 12,
    {
        MIDI_PACKET_HEADER_SIZE
    }

    pub fn new(data: &'a [u8; 12]) -> (h: Self)
        ensures
            h.data@ == data@,
    {
        Self { data }
    }

    pub fn flags(&self) -> (f: MidiPacketHeaderFlags)
        ensures
            f.bits() == be_u16_value(self.data@),
    {
        let b = [self.data[0], self.data[1]];
        assert(b@ =~= self.data@.take(2));
        MidiPacketHeaderFlags::from_bits(u16_from_be_bytes(b))
    }

    pub fn sequence_number(&self) -> (s: u16)
        ensures
            s == be_u16_value(self.data@.skip(2)),
    {
        let b = [self.data[2], self.data[3]];
        assert(b@ =~= self.data@.skip(2).take(2));
        u16_from_be_bytes(b)
    }

    pub fn timestamp(&self) -> (t: u32)
        ensures
            t == be_u32_value(self.data@.skip(4)),
    {
        let b = [self.data[4], self.data[5], self.data[6], self.data[7]];
        assert(b@ =~= self.data@.skip(4).take(4));
        u32_from_be_bytes(b)
    }

    pub fn ssrc(&self) -> (s: u32)
        ensures
            s == be_u32_value(self.data@.skip(8)),
    {
        let b = [self.data[8], self.data[9], self.data[10], self.data[11]];
        assert(b@ =~= self.data@.skip(8).take(4));
        u32_from_be_bytes(b)
    }
}

} // verus!
