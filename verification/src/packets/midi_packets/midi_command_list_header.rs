//! The one- or two-byte header in front of a MIDI command list: the B, J, Z
//! and P flags and the length of the list.
use super::midi_command_list_body::MidiEventList;
use super::midi_timed_command::TimedCommand;
use crate::packet::midi_packet::midi_command_list_header::{flag_bits, lemma_set_flags};
use crate::stream::ByteSink;
use bytes::BytesMut;
use crate::byte_facts::lemma_byte_bits;
use vstd::prelude::*;

verus! {

pub struct MidiCommandListHeader {
    flags: MidiCommandListFlags,
    length: usize,
}

/// The B, J, Z and P flags, in the upper four bits of a byte.
#[derive(Debug, Clone, Copy, PartialEq, Eq, Structural)]
pub struct MidiCommandListFlags {
    flags: u8,
}

enum MidiCommandSectionFlagMasks {
    B,
    J,
    Z,
    P,
}

impl MidiCommandSectionFlagMasks {
    spec fn spec_mask(self) -> u8 {
        match self {
            MidiCommandSectionFlagMasks::B => 0b1000_0000,
            MidiCommandSectionFlagMasks::J => 0b0100_0000,
            MidiCommandSectionFlagMasks::Z => 0b0010_0000,
            MidiCommandSectionFlagMasks::P => 0b0001_0000,
        }
    }

    fn mask(&self) -> (m: u8)
        ensures
            m == self.spec_mask(),
    {
        match self {
            MidiCommandSectionFlagMasks::B => 0b1000_0000,
            MidiCommandSectionFlagMasks::J => 0b0100_0000,
            MidiCommandSectionFlagMasks::Z => 0b0010_0000,
            MidiCommandSectionFlagMasks::P => 0b0001_0000,
        }
    }
}

impl MidiCommandListFlags {
    /// The flag byte.
    pub closed spec fn bits(self) -> u8 {
        self.flags
    }

    /// Flags with the same bits are the same flags.
    pub proof fn lemma_bits_determine(self, other: Self)
        requires
            self.bits() == other.bits(),
        ensures
            self == other,
    {
    }

    pub open spec fn spec_b(self) -> bool {
        self.bits() & 0x80 != 0
    }

    pub open spec fn spec_z(self) -> bool {
        self.bits() & 0x20 != 0
    }

    /// The lower four bits are clear.
    pub open spec fn wf(self) -> bool {
        self.bits() & 0x0F == 0
    }

    pub fn new(b_flag: bool, j_flag: bool, z_flag: bool, p_flag: bool) -> (f: Self)
        ensures
            f.bits() == flag_bits(b_flag, j_flag, z_flag, p_flag),
            f.wf(),
            f.spec_b() == b_flag,
            f.spec_z() == z_flag,
    {
        let mut this = MidiCommandListFlags { flags: 0 };
        this.set_flag(MidiCommandSectionFlagMasks::B, b_flag);
        this.set_flag(MidiCommandSectionFlagMasks::J, j_flag);
        this.set_flag(MidiCommandSectionFlagMasks::Z, z_flag);
        this.set_flag(MidiCommandSectionFlagMasks::P, p_flag);
        proof {
            lemma_set_flags(this.flags, b_flag, j_flag, z_flag, p_flag);
        }
        this
    }

    fn get_flag(&self, flag: MidiCommandSectionFlagMasks) -> (r: bool)
        ensures
            r == (self.flags & flag.spec_mask() != 0),
    {
        self.flags & flag.mask() != 0
    }

    fn set_flag(&mut self, flag: MidiCommandSectionFlagMasks, value: bool)
        ensures
            final(self).flags == if value {
                old(self).flags | flag.spec_mask()
            } else {
                old(self).flags & !flag.spec_mask()
            },
    {
        if value {
            self.flags |= flag.mask();
        } else {
            self.flags &= !flag.mask();
        }
    }

    pub fn b_flag(&self) -> (r: bool)
        ensures
            r == self.spec_b(),
    {
        self.get_flag(MidiCommandSectionFlagMasks::B)
    }

    pub fn z_flag(&self) -> (r: bool)
        ensures
            r == self.spec_z(),
    {
        self.get_flag(MidiCommandSectionFlagMasks::Z)
    }

    /// A list longer than fifteen bytes needs the two-byte header.
    pub fn needs_b_flag(size: usize) -> (r: bool)
        ensures
            r == (size > 0x0F),
    {
        size > 0x0F
    }

    /// The flags in the upper four bits of `byte`.
    pub fn from_u8(byte: u8) -> (f: Self)
        ensures
            f.bits() == byte & 0xF0,
            f.wf(),
    {
        assert((byte & 0xF0) & 0x0F == 0) by { lemma_byte_bits(); }
        MidiCommandListFlags { flags: byte & 0xF0 }
    }
}

/// The bytes of a header with flag byte `flags` and length `length`: with B
/// set, the flags with the length's bits 8 to 11, then its low eight bits; else
/// the flags with the length's low four bits.
pub open spec fn list_header_bytes(flags: u8, length: usize) -> Seq<u8> {
    if flags & 0x80 != 0 {
        seq![(flags + (length / 0x100) % 0x10) as u8, (length % 0x100) as u8]
    } else {
        seq![(flags + length % 0x10) as u8]
    }
}

impl MidiCommandListHeader {
    pub closed spec fn spec_flags(self) -> MidiCommandListFlags {
        self.flags
    }

    pub closed spec fn spec_length(self) -> usize {
        self.length
    }

    pub fn new(flags: MidiCommandListFlags, length: usize) -> (h: Self)
        ensures
            h.spec_flags() == flags,
            h.spec_length() == length,
    {
        MidiCommandListHeader { flags, length }
    }

    /// The header for `events`: their length with `z_flag`, B set when that is
    /// above fifteen, J and Z clear, and P set as `z_flag` is.
    pub fn build_for(events: &[TimedCommand], z_flag: bool) -> (h: Self)
        requires
            events.spec_list_bytes(z_flag).len() <= usize::MAX,
        ensures
            h.spec_length() == events.spec_list_bytes(z_flag).len(),
            h.spec_flags().bits() == flag_bits(h.spec_length() > 0x0F, false, false, z_flag),
            h.spec_flags().wf(),
            h.spec_flags().spec_b() == (h.spec_length() > 0x0F),
            !h.spec_flags().spec_z(),
    {
        let length = events.size(z_flag);
        let b_flag = MidiCommandListFlags::needs_b_flag(length);
        let flags = MidiCommandListFlags::new(b_flag, false, false, z_flag);
        Self::new(flags, length)
    }

    pub fn flags(&self) -> (f: &MidiCommandListFlags)
        ensures
            *f == self.spec_flags(),
    {
        &self.flags
    }

    pub fn length(&self) -> (l: usize)
        ensures
            l == self.spec_length(),
    {
        self.length
    }

    /// The number of header bytes: two with B set, else one.
    pub fn size(&self) -> (n: usize)
        ensures
            n == if self.spec_flags().spec_b() {
                2nat
            } else {
                1nat
            },
    {
        if self.flags.b_flag() {
            2
        } else {
            1
        }
    }

    /// Reads a header from the front of `data`.
    pub fn from_slice(data: &[u8]) -> (h: Self)
        requires
            data@.len() >= 1,
            data@[0] & 0x80 != 0 ==> data@.len() >= 2,
        ensures
            h.spec_flags().bits() == data@[0] & 0xF0,
            h.spec_flags().wf(),
            h.spec_length() == if data@[0] & 0x80 != 0 {
                (data@[0] % 0x10) * 0x100 + data@[1]
            } else {
                (data@[0] % 0x10) as int
            },
    {
        let first_byte = data[0];
        let flags = MidiCommandListFlags::from_u8(first_byte);
        assert((first_byte & 0xF0) & 0x80 == first_byte & 0x80) by { lemma_byte_bits(); }
        if flags.b_flag() {
            let length_lsb = data[1];
            let length = (((first_byte & 0x0F) as u16) << 8) | (length_lsb as u16);
            assert(length == (first_byte % 0x10) * 0x100 + length_lsb) by (bit_vector)
                requires
                    length == (((first_byte & 0x0F) as u16) << 8) | (length_lsb as u16),
            ;
            Self { flags, length: length as usize }
        } else {
            let length = (first_byte & 0x0F) as usize;
            assert(first_byte & 0x0F == first_byte % 0x10) by { lemma_byte_bits(); }
            Self { flags, length }
        }
    }

    /// Appends the header's bytes; see `list_header_bytes`.
    pub fn write(&self, buffer: &mut BytesMut)
        requires
            self.spec_flags().wf(),
            old(buffer).sink_room() >= 2,
        ensures
            final(buffer).sink_contents() == old(buffer).sink_contents() + list_header_bytes(
                self.spec_flags().bits(),
                self.spec_length(),
            ),
    {
        let f = self.flags.flags;
        let l = self.length;
        if self.flags.b_flag() {
            let first_byte = self.flags.flags | ((self.length >> 8) as u8 & 0x0F);
            let hi = (l >> 8) as u8 & 0x0F;
            let second_byte = (self.length & 0xFF) as u8;
            assert(hi as usize == (l / 0x100) % 0x10 && first_byte as int == f as int + hi as int
                && second_byte as usize == l % 0x100) by (bit_vector)
                requires
                    hi == (l >> 8) as u8 & 0x0F,
                    f & 0x0F == 0,
                    first_byte == f | hi,
                    second_byte == (l & 0xFF) as u8,
            ;
            buffer.put_byte(first_byte);
            buffer.put_byte(second_byte);
        } else {
            let first_byte = self.flags.flags | (self.length as u8 & 0x0F);
            let lo = l as u8 & 0x0F;
            assert(lo as usize == l % 0x10 && first_byte as int == f as int + lo as int) by (bit_vector)
                requires
                    lo == l as u8 & 0x0F,
                    f & 0x0F == 0,
                    first_byte == f | lo,
            ;
            buffer.put_byte(first_byte);
        }
        assert(buffer.sink_contents() =~= old(buffer).sink_contents() + list_header_bytes(f, l));
    }
}

/// A header read back from its own bytes has the same flags and length, when
/// the flags leave the lower four bits clear and the length fits the header:
/// twelve bits with B set, four without.
pub proof fn lemma_write_then_read(f: u8, l: usize, rest: Seq<u8>)
    requires
        f & 0x0F == 0,
        f & 0x80 != 0 ==> l <= 0xFFF,
        f & 0x80 == 0 ==> l <= 0xF,
    ensures
        ({
            let d = list_header_bytes(f, l) + rest;
            &&& d.len() >= 1
            &&& d[0] & 0x80 != 0 ==> d.len() >= 2
            &&& d[0] & 0xF0 == f
            &&& (d[0] & 0x80 != 0) == (f & 0x80 != 0)
            &&& (d[0] & 0x20 != 0) == (f & 0x20 != 0)
            &&& list_header_bytes(f, l).len() == if f & 0x80 != 0 {
                2nat
            } else {
                1nat
            }
            &&& l == if d[0] & 0x80 != 0 {
                (d[0] % 0x10) * 0x100 + d[1]
            } else {
                (d[0] % 0x10) as int
            }
        }),
{
    let d = list_header_bytes(f, l) + rest;
    assert(f <= 0xF0) by (bit_vector)
        requires
            f & 0x0F == 0,
    ;
    if f & 0x80 != 0 {
        let hi = ((l / 0x100) % 0x10) as u8;
        let b0 = (f + (l / 0x100) % 0x10) as u8;
        assert(b0 == f + hi);
        assert(d[0] == b0 && d[1] == (l % 0x100) as u8);
        assert(b0 & 0x80 != 0 && b0 & 0xF0 == f && b0 % 0x10 == hi && (b0 & 0x20 != 0) == (f & 0x20
            != 0)) by (bit_vector)
            requires
                f & 0x0F == 0,
                f & 0x80 != 0,
                hi < 0x10,
                b0 as int == f as int + hi as int,
        ;
    } else {
        let lo = (l % 0x10) as u8;
        let b0 = (f + l % 0x10) as u8;
        assert(b0 == f + lo);
        assert(d[0] == b0);
        assert(b0 & 0x80 == 0 && b0 & 0xF0 == f && b0 % 0x10 == lo && (b0 & 0x20 != 0) == (f & 0x20
            != 0)) by (bit_vector)
            requires
                f & 0x0F == 0,
                f & 0x80 == 0,
                lo < 0x10,
                b0 as int == f as int + lo as int,
        ;
    }
}

} // verus!
