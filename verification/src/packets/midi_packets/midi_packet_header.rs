//! The twelve-byte RTP header of a MIDI packet, as the packet builder writes it.
use crate::packet::midi_packet::midi_packet_header::{
    header_bytes, lemma_new_flags, spec_new_flags, spec_set_cc, spec_set_flag, spec_set_pt, spec_set_version,
};
use crate::stream::{put_u16_be, put_u32_be, ByteSink};
use crate::io::Error;
use vstd::prelude::*;

verus! {

pub struct MidiPacketHeader {
    flags: MidiPacketHeaderFlags,
    sequence_number: u16,
    timestamp: u32,
    ssrc: u32,
}

/// The fields of the first two header bytes, each named by the bits it takes.
pub enum FlagMasks {
    Version,
    P,
    X,
    CC,
    M,
    PT,
}

impl FlagMasks {
    pub open spec fn spec_value(self) -> u16 {
        match self {
            FlagMasks::Version => 0b1100_0000_0000_0000,
            FlagMasks::P => 0b0010_0000_0000_0000,
            FlagMasks::X => 0b0001_0000_0000_0000,
            FlagMasks::CC => 0b0000_1111_0000_0000,
            FlagMasks::M => 0b0000_0000_1000_0000,
            FlagMasks::PT => 0b0000_0000_0111_1111,
        }
    }

    /// The bits of the field.
    pub fn value(&self) -> (v: u16)
        ensures
            v == self.spec_value(),
    {
        match self {
            FlagMasks::Version => 0b1100_0000_0000_0000,
            FlagMasks::P => 0b0010_0000_0000_0000,
            FlagMasks::X => 0b0001_0000_0000_0000,
            FlagMasks::CC => 0b0000_1111_0000_0000,
            FlagMasks::M => 0b0000_0000_1000_0000,
            FlagMasks::PT => 0b0000_0000_0111_1111,
        }
    }
}

/// Version, P, X, CC, M and PT, packed into sixteen bits.
pub struct MidiPacketHeaderFlags {
    flags: u16,
}

impl MidiPacketHeaderFlags {
    pub closed spec fn bits(self) -> u16 {
        self.flags
    }

    /// Flags with the same bits are the same flags.
    pub proof fn lemma_bits_determine(self, other: Self)
        requires
            self.bits() == other.bits(),
        ensures
            self == other,
    {
    }

    /// The flags with exactly the given bits.
    pub(crate) fn from_bits(flags: u16) -> (f: Self)
        ensures
            f.bits() == flags,
    {
        MidiPacketHeaderFlags { flags }
    }

    pub fn new(version: u8, p: bool, x: bool, cc: u8, m: bool, pt: u8) -> (f: Self)
        ensures
            f.bits() == spec_new_flags(version, p, x, cc, m, pt),
    {
        let mut flags = MidiPacketHeaderFlags { flags: 0 };
        flags.set_version(version);
        flags.set_flag(FlagMasks::P, p);
        flags.set_flag(FlagMasks::X, x);
        flags.set_cc(cc);
        flags.set_flag(FlagMasks::M, m);
        flags.set_pt(pt);
        proof {
            lemma_new_flags(version, p, x, cc, m, pt);
        }
        flags
    }

    fn get_flag(&self, flag: FlagMasks) -> (r: bool)
        ensures
            r == (self.flags & flag.spec_value() != 0),
    {
        self.flags & flag.value() != 0
    }

    fn set_flag(&mut self, flag: FlagMasks, value: bool)
        ensures
            final(self).flags == spec_set_flag(old(self).flags, flag.spec_value(), value),
    {
        if value {
            self.flags |= flag.value();
        } else {
            self.flags &= !flag.value();
        }
    }

    fn get_version(&self) -> (v: u8)
        ensures
            v == ((self.flags & 0xC000) >> 14u16) as u8,
    {
        ((self.flags & FlagMasks::Version.value()) >> 14u16) as u8
    }

    fn set_version(&mut self, version: u8)
        ensures
            final(self).flags == spec_set_version(old(self).flags, version),
    {
        self.flags = (self.flags & !FlagMasks::Version.value()) | ((version as u16) << 14u16);
    }

    fn cc(&self) -> (c: u8)
        ensures
            c == ((self.flags & 0x0F00) >> 8u16) as u8,
    {
        ((self.flags & FlagMasks::CC.value()) >> 8u16) as u8
    }

    fn set_cc(&mut self, cc: u8)
        ensures
            final(self).flags == spec_set_cc(old(self).flags, cc),
    {
        self.flags = (self.flags & !FlagMasks::CC.value()) | ((cc as u16) << 8u16);
    }

    fn pt(&self) -> (p: u8)
        ensures
            p == (self.flags & 0x007F) as u8,
    {
        (self.flags & FlagMasks::PT.value()) as u8
    }

    fn set_pt(&mut self, pt: u8)
        ensures
            final(self).flags == spec_set_pt(old(self).flags, pt),
    {
        self.flags = (self.flags & !FlagMasks::PT.value()) | (pt as u16);
    }
}

impl From<u16> for MidiPacketHeaderFlags {
    fn from(flags: u16) -> (r: Self) {
        MidiPacketHeaderFlags { flags }
    }
}

impl vstd::std_specs::convert::FromSpecImpl<u16> for MidiPacketHeaderFlags {
    open spec fn obeys_from_spec() -> bool {
        true
    }

    closed spec fn from_spec(v: u16) -> Self {
        MidiPacketHeaderFlags { flags: v }
    }
}

impl From<MidiPacketHeaderFlags> for u16 {
    fn from(flags: MidiPacketHeaderFlags) -> (r: u16) {
        flags.flags
    }
}

impl vstd::std_specs::convert::FromSpecImpl<MidiPacketHeaderFlags> for u16 {
    open spec fn obeys_from_spec() -> bool {
        true
    }

    closed spec fn from_spec(v: MidiPacketHeaderFlags) -> u16 {
        v.flags
    }
}

impl MidiPacketHeader {
    pub closed spec fn spec_flags(self) -> u16 {
        self.flags.flags
    }

    pub closed spec fn spec_sequence_number(self) -> u16 {
        self.sequence_number
    }

    pub closed spec fn spec_timestamp(self) -> u32 {
        self.timestamp
    }

    pub closed spec fn spec_ssrc(self) -> u32 {
        self.ssrc
    }

    /// The twelve bytes that `write` appends.
    pub open spec fn spec_bytes(self) -> Seq<u8> {
        header_bytes(
            self.spec_flags(),
            self.spec_sequence_number(),
            self.spec_timestamp(),
            self.spec_ssrc(),
        )
    }

    /// A header of version 2, payload type 97, with the other flags clear.
    pub fn new(sequence_number: u16, timestamp: u32, ssrc: u32) -> (h: Self)
        ensures
            h.spec_flags() == 0x8061,
            h.spec_sequence_number() == sequence_number,
            h.spec_timestamp() == timestamp,
            h.spec_ssrc() == ssrc,
    {
        let flags = MidiPacketHeaderFlags::new(2, false, false, 0, false, 97);
        assert(spec_new_flags(2, false, false, 0, false, 97) == 0x8061) by (bit_vector);
        MidiPacketHeader { flags, sequence_number, timestamp, ssrc }
    }

    /// Appends the flags, sequence number, timestamp and SSRC, most significant
    /// byte first, and returns the twelve bytes written.
    pub fn write<W: ByteSink>(&self, writer: &mut W) -> (r: Result<usize, Error>)
        requires
            old(writer).sink_room() >= 12,
        ensures
            r matches Ok(n) && n == 12,
            final(writer).sink_contents() == old(writer).sink_contents() + self.spec_bytes(),
    {
        put_u16_be(writer, self.flags.flags);
        put_u16_be(writer, self.sequence_number);
        put_u32_be(writer, self.timestamp);
        put_u32_be(writer, self.ssrc);
        assert(writer.sink_contents() =~= old(writer).sink_contents() + self.spec_bytes());
        Ok(12)
    }
}

} // verus!
