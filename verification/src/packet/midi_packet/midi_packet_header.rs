//! The twelve-byte RTP header of a MIDI packet.
use crate::endian::{
    be_u16_value, be_u32_value, read_u16_be, read_u32_be, u16_be_bytes, u32_be_bytes,
    write_u16_be, write_u32_be,
};
use crate::io::{Error, ErrorKind};
use vstd::prelude::*;

verus! {

/// Version, P, X, CC, M and PT, packed into sixteen bits.
#[derive(Debug)]
pub struct MidiPacketHeader {
    flags: MidiPacketHeaderFlags,
    sequence_number: u16,
    timestamp: u32,
    ssrc: u32,
}

/// The fields of the first two header bytes, each named by the bits it takes.
pub enum FlagMasks {
    Version,
    P,
    X,
    CC,
    M,
    PT,
}

impl FlagMasks {
    pub open spec fn spec_value(self) -> u16 {
        match self {
            FlagMasks::Version => 0b1100_0000_0000_0000,
            FlagMasks::P => 0b0010_0000_0000_0000,
            FlagMasks::X => 0b0001_0000_0000_0000,
            FlagMasks::CC => 0b0000_1111_0000_0000,
            FlagMasks::M => 0b0000_0000_1000_0000,
            FlagMasks::PT => 0b0000_0000_0111_1111,
        }
    }

    /// The bits of the field.
    pub fn value(&self) -> (v: u16)
        ensures
            v == self.spec_value(),
    {
        match self {
            FlagMasks::Version => 0b1100_0000_0000_0000,
            FlagMasks::P => 0b0010_0000_0000_0000,
            FlagMasks::X => 0b0001_0000_0000_0000,
            FlagMasks::CC => 0b0000_1111_0000_0000,
            FlagMasks::M => 0b0000_0000_1000_0000,
            FlagMasks::PT => 0b0000_0000_0111_1111,
        }
    }
}

#[derive(Debug)]
pub struct MidiPacketHeaderFlags {
    flags: u16,
}

pub open spec fn spec_set_flag(f: u16, mask: u16, value: bool) -> u16 {
    if value {
        f | mask
    } else {
        f & !mask
    }
}

pub open spec fn spec_set_version(f: u16, version: u8) -> u16 {
    (f & !0xC000u16) | ((version as u16) << 14u16)
}

pub open spec fn spec_set_cc(f: u16, cc: u8) -> u16 {
    (f & !0x0F00u16) | ((cc as u16) << 8u16)
}

pub open spec fn spec_set_pt(f: u16, pt: u8) -> u16 {
    (f & !0x007Fu16) | (pt as u16)
}

/// The flag bits that `MidiPacketHeaderFlags::new` builds: the version in the
/// top two bits, P in bit 13, X in bit 12, CC from bit 8, M in bit 7 and PT from
/// bit 0, each field or'ed in.
pub open spec fn spec_new_flags(version: u8, p: bool, x: bool, cc: u8, m: bool, pt: u8) -> u16 {
    ((version as u16) << 14u16) | (if p {
        0x2000u16
    } else {
        0u16
    }) | (if x {
        0x1000u16
    } else {
        0u16
    }) | ((cc as u16) << 8u16) | (if m {
        0x0080u16
    } else {
        0u16
    }) | (pt as u16)
}

/// Setting the version, P, X, CC, M and PT in turn, from zero, gives
/// `spec_new_flags`: each step clears only bits that are still clear.
pub proof fn lemma_new_flags(version: u8, p: bool, x: bool, cc: u8, m: bool, pt: u8)
    by (bit_vector)
    ensures
        spec_set_pt(
            spec_set_flag(
                spec_set_cc(
                    spec_set_flag(spec_set_flag(spec_set_version(0, version), 0x2000, p), 0x1000, x),
                    cc,
                ),
                0x0080,
                m,
            ),
            pt,
        ) == spec_new_flags(version, p, x, cc, m, pt),
{
}

impl MidiPacketHeaderFlags {
    pub closed spec fn bits(self) -> u16 {
        self.flags
    }

    /// Flags with the same bits are the same flags.
    pub proof fn lemma_bits_determine(self, other: Self)
        requires
            self.bits() == other.bits(),
        ensures
            self == other,
    {
    }

    pub fn new(version: u8, p: bool, x: bool, cc: u8, m: bool, pt: u8) -> (f: Self)
        ensures
            f.bits() == spec_new_flags(version, p, x, cc, m, pt),
    {
        let mut flags = MidiPacketHeaderFlags { flags: 0 };
        flags.set_version(version);
        flags.set_flag(FlagMasks::P, p);
        flags.set_flag(FlagMasks::X, x);
        flags.set_cc(cc);
        flags.set_flag(FlagMasks::M, m);
        flags.set_pt(pt);
        proof {
            lemma_new_flags(version, p, x, cc, m, pt);
        }
        flags
    }

    pub fn from_u16(flags: u16) -> (f: Self)
        ensures
            f.bits() == flags,
    {
        MidiPacketHeaderFlags { flags }
    }

    fn get_flag(&self, flag: FlagMasks) -> (r: bool)
        ensures
            r == (self.flags & flag.spec_value() != 0),
    {
        self.flags & flag.value() != 0
    }

    fn set_flag(&mut self, flag: FlagMasks, value: bool)
        ensures
            final(self).flags == spec_set_flag(old(self).flags, flag.spec_value(), value),
    {
        if value {
            self.flags = self.flags | flag.value();
        } else {
            self.flags = self.flags & !flag.value();
        }
    }

    fn get_version(&self) -> (v: u8)
        ensures
            v == ((self.flags & 0xC000) >> 14u16) as u8,
    {
        ((self.flags & FlagMasks::Version.value()) >> 14u16) as u8
    }

    fn set_version(&mut self, version: u8)
        ensures
            final(self).flags == spec_set_version(old(self).flags, version),
    {
        self.flags = (self.flags & !FlagMasks::Version.value()) | ((version as u16) << 14u16);
    }

    fn cc(&self) -> (c: u8)
        ensures
            c == ((self.flags & 0x0F00) >> 8u16) as u8,
    {
        ((self.flags & FlagMasks::CC.value()) >> 8u16) as u8
    }

    fn set_cc(&mut self, cc: u8)
        ensures
            final(self).flags == spec_set_cc(old(self).flags, cc),
    {
        self.flags = (self.flags & !FlagMasks::CC.value()) | ((cc as u16) << 8u16);
    }

    fn pt(&self) -> (p: u8)
        ensures
            p == (self.flags & 0x007F) as u8,
    {
        (self.flags & FlagMasks::PT.value()) as u8
    }

    fn set_pt(&mut self, pt: u8)
        ensures
            final(self).flags == spec_set_pt(old(self).flags, pt),
    {
        self.flags = (self.flags & !FlagMasks::PT.value()) | (pt as u16);
    }

    fn to_be_bytes(&self) -> (b: [u8; 2])
        ensures
            b@ == u16_be_bytes(self.flags),
    {
        let mut b = [0u8; 2];
        write_u16_be(&mut b, self.flags);
        assert(b@ =~= u16_be_bytes(self.flags));
        b
    }
}

/// The twelve bytes of a header: flags, sequence number, timestamp and SSRC,
/// each most significant byte first.
pub open spec fn header_bytes(flags: u16, sequence_number: u16, timestamp: u32, ssrc: u32) -> Seq<u8> {
    u16_be_bytes(flags) + u16_be_bytes(sequence_number) + u32_be_bytes(timestamp) + u32_be_bytes(
        ssrc,
    )
}

impl MidiPacketHeader {
    pub closed spec fn spec_flags(self) -> u16 {
        self.flags.flags
    }

    pub closed spec fn spec_sequence_number(self) -> u16 {
        self.sequence_number
    }

    pub closed spec fn spec_timestamp(self) -> u32 {
        self.timestamp
    }

    pub closed spec fn spec_ssrc(self) -> u32 {
        self.ssrc
    }

    pub open spec fn spec_bytes(self) -> Seq<u8> {
        header_bytes(
            self.spec_flags(),
            self.spec_sequence_number(),
            self.spec_timestamp(),
            self.spec_ssrc(),
        )
    }

    /// A header of version 2, payload type 97, with the other flags clear.
    pub fn new(sequence_number: u16, timestamp: u32, ssrc: u32) -> (h: Self)
        ensures
            h.spec_flags() == 0x8061,
            h.spec_sequence_number() == sequence_number,
            h.spec_timestamp() == timestamp,
            h.spec_ssrc() == ssrc,
    {
        let flags = MidiPacketHeaderFlags::new(2, false, false, 0, false, 97);
        assert(spec_new_flags(2, false, false, 0, false, 97) == 0x8061) by (bit_vector);
        MidiPacketHeader { flags, sequence_number, timestamp, ssrc }
    }

    pub fn sequence_number(&self) -> (s: u16)
        ensures
            s == self.spec_sequence_number(),
    {
        self.sequence_number
    }

    pub fn timestamp(&self) -> (t: u32)
        ensures
            t == self.spec_timestamp(),
    {
        self.timestamp
    }

    pub fn ssrc(&self) -> (s: u32)
        ensures
            s == self.spec_ssrc(),
    {
        self.ssrc
    }

    pub fn flags(&self) -> (f: &MidiPacketHeaderFlags)
        ensures
            f.bits() == self.spec_flags(),
    {
        &self.flags
    }

    /// Reads a header from the first twelve bytes. Fails with `InvalidData` on
    /// fewer than twelve.
    pub fn from_be_bytes(bytes: &[u8]) -> (r: Result<Self, Error>)
        ensures
            match r {
                Ok(h) => {
                    &&& bytes@.len() >= 12
                    &&& h.spec_flags() == be_u16_value(bytes@)
                    &&& h.spec_sequence_number() == be_u16_value(bytes@.skip(2))
                    &&& h.spec_timestamp() == be_u32_value(bytes@.skip(4))
                    &&& h.spec_ssrc() == be_u32_value(bytes@.skip(8))
                },
                Err(e) => bytes@.len() < 12 && e.kind == ErrorKind::InvalidData,
            },
    {
        if bytes.len() < 12 {
            return Err(Error::new(ErrorKind::InvalidData));
        }
        let f = read_u16_be(&bytes[0..2]);
        let s = read_u16_be(&bytes[2..4]);
        let t = read_u32_be(&bytes[4..8]);
        let c = read_u32_be(&bytes[8..12]);
        assert(bytes@.subrange(2, 4) =~= bytes@.skip(2).take(2));
        Ok(Self {
            flags: MidiPacketHeaderFlags::from_u16(f),
            sequence_number: s,
            timestamp: t,
            ssrc: c,
        })
    }

    /// Writes the header's twelve bytes at the front of `bytes`. Fails with
    /// `InvalidData`, writing nothing, on fewer than twelve.
    pub fn write_to_bytes(&self, bytes: &mut [u8]) -> (r: Result<usize, Error>)
        ensures
            match r {
                Ok(n) => {
                    &&& old(bytes)@.len() >= 12
                    &&& n == 12
                    &&& final(bytes)@ == self.spec_bytes() + old(bytes)@.skip(12)
                },
                Err(e) => {
                    &&& old(bytes)@.len() < 12
                    &&& e.kind == ErrorKind::InvalidData
                    &&& final(bytes)@ == old(bytes)@
                },
            },
    {
        if bytes.len() < 12 {
            return Err(Error::new(ErrorKind::InvalidData));
        }
        let fb = self.flags.to_be_bytes();
        bytes[0] = fb[0];
        bytes[1] = fb[1];
        {
            let t = crate::endian::tail_mut(bytes, 2);
            write_u16_be(t, self.sequence_number);
        }
        {
            let t = crate::endian::tail_mut(bytes, 4);
            write_u32_be(t, self.timestamp);
        }
        {
            let t = crate::endian::tail_mut(bytes, 8);
            write_u32_be(t, self.ssrc);
        }
        assert(bytes@ =~= self.spec_bytes() + old(bytes)@.skip(12));
        Ok(12)
    }
}

/// Writing a header and reading it back gives the same fields.
pub proof fn lemma_write_then_read(h: MidiPacketHeader, rest: Seq<u8>)
    ensures
        ({
            let s = h.spec_bytes() + rest;
            &&& s.len() >= 12
            &&& be_u16_value(s) == h.spec_flags()
            &&& be_u16_value(s.skip(2)) == h.spec_sequence_number()
            &&& be_u32_value(s.skip(4)) == h.spec_timestamp()
            &&& be_u32_value(s.skip(8)) == h.spec_ssrc()
        }),
{
    crate::endian::lemma_u16_be_roundtrip(h.spec_flags());
    crate::endian::lemma_u16_be_roundtrip(h.spec_sequence_number());
    crate::endian::lemma_u32_be_roundtrip(h.spec_timestamp());
    crate::endian::lemma_u32_be_roundtrip(h.spec_ssrc());
    let s = h.spec_bytes() + rest;
    assert(s.skip(2).take(2) =~= u16_be_bytes(h.spec_sequence_number()));
    assert(s.skip(4).take(4) =~= u32_be_bytes(h.spec_timestamp()));
    assert(s.skip(8).take(4) =~= u32_be_bytes(h.spec_ssrc()));
    assert(s.take(2) =~= u16_be_bytes(h.spec_flags()));
}

} // verus!
