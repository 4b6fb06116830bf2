//! The one- or two-byte header of the MIDI command section: four flags and the
//! length of the command list.
use super::midi_command_section::MidiCommandSection;
use crate::io::Error;
use crate::byte_facts::lemma_byte_bits;
use vstd::prelude::*;

verus! {

pub struct MidiCommandListHeader {
    flags: MidiCommandListFlags,
    length: usize,
}

/// The B, J, Z and P flags, in the upper four bits of a byte.
#[derive(Debug, Clone, Copy, PartialEq, Eq, Structural)]
pub struct MidiCommandListFlags {
    flags: u8,
}

enum MidiCommandSectionFlagMasks {
    B,
    J,
    Z,
    P,
}

impl MidiCommandSectionFlagMasks {
    spec fn spec_mask(self) -> u8 {
        match self {
            MidiCommandSectionFlagMasks::B => 0b1000_0000,
            MidiCommandSectionFlagMasks::J => 0b0100_0000,
            MidiCommandSectionFlagMasks::Z => 0b0010_0000,
            MidiCommandSectionFlagMasks::P => 0b0001_0000,
        }
    }

    fn mask(&self) -> (m: u8)
        ensures
            m == self.spec_mask(),
    {
        match self {
            MidiCommandSectionFlagMasks::B => 0b1000_0000,
            MidiCommandSectionFlagMasks::J => 0b0100_0000,
            MidiCommandSectionFlagMasks::Z => 0b0010_0000,
            MidiCommandSectionFlagMasks::P => 0b0001_0000,
        }
    }
}

/// The flag byte with B, J, Z and P set as given and the lower four bits clear.
pub open spec fn flag_bits(b: bool, j: bool, z: bool, p: bool) -> u8 {
    ((if b { 0x80u8 } else { 0u8 }) | (if j { 0x40u8 } else { 0u8 }) | (if z { 0x20u8 } else { 0u8 })
        | (if p { 0x10u8 } else { 0u8 }))
}

/// Each flag of `flag_bits` reads back, and the lower four bits are clear.
pub proof fn lemma_flag_bits(b: bool, j: bool, z: bool, p: bool)
    by (bit_vector)
    ensures
        flag_bits(b, j, z, p) & 0x0F == 0,
        (flag_bits(b, j, z, p) & 0x80 != 0) == b,
        (flag_bits(b, j, z, p) & 0x40 != 0) == j,
        (flag_bits(b, j, z, p) & 0x20 != 0) == z,
        (flag_bits(b, j, z, p) & 0x10 != 0) == p,
{
}

/// Setting or clearing B, J, Z and P in turn on a zero byte gives `flag_bits`,
/// with each flag readable back and the lower four bits clear.
pub proof fn lemma_set_flags(x: u8, b_flag: bool, j_flag: bool, z_flag: bool, p_flag: bool)
    by (bit_vector)
    requires
        x == (if p_flag {
            ((if z_flag {
                ((if j_flag {
                    ((if b_flag { 0u8 | 0x80u8 } else { 0u8 & !0x80u8 }) | 0x40u8)
                } else {
                    ((if b_flag { 0u8 | 0x80u8 } else { 0u8 & !0x80u8 }) & !0x40u8)
                }) | 0x20u8)
            } else {
                ((if j_flag {
                    ((if b_flag { 0u8 | 0x80u8 } else { 0u8 & !0x80u8 }) | 0x40u8)
                } else {
                    ((if b_flag { 0u8 | 0x80u8 } else { 0u8 & !0x80u8 }) & !0x40u8)
                }) & !0x20u8)
            }) | 0x10u8)
        } else {
            ((if z_flag {
                ((if j_flag {
                    ((if b_flag { 0u8 | 0x80u8 } else { 0u8 & !0x80u8 }) | 0x40u8)
                } else {
                    ((if b_flag { 0u8 | 0x80u8 } else { 0u8 & !0x80u8 }) & !0x40u8)
                }) | 0x20u8)
            } else {
                ((if j_flag {
                    ((if b_flag { 0u8 | 0x80u8 } else { 0u8 & !0x80u8 }) | 0x40u8)
                } else {
                    ((if b_flag { 0u8 | 0x80u8 } else { 0u8 & !0x80u8 }) & !0x40u8)
                }) & !0x20u8)
            }) & !0x10u8)
        }),
    ensures
        x == flag_bits(b_flag, j_flag, z_flag, p_flag),
        x & 0x0F == 0,
        (x & 0x80 != 0) == b_flag,
        (x & 0x40 != 0) == j_flag,
        (x & 0x20 != 0) == z_flag,
        (x & 0x10 != 0) == p_flag,
{
}

impl MidiCommandListFlags {
    /// The flag byte.
    pub closed spec fn bits(self) -> u8 {
        self.flags
    }

    /// Flags with the same bits are the same flags.
    pub proof fn lemma_bits_determine(self, other: Self)
        requires
            self.bits() == other.bits(),
        ensures
            self == other,
    {
    }

    pub open spec fn spec_b(self) -> bool {
        self.bits() & 0x80 != 0
    }

    pub open spec fn spec_j(self) -> bool {
        self.bits() & 0x40 != 0
    }

    pub open spec fn spec_z(self) -> bool {
        self.bits() & 0x20 != 0
    }

    pub open spec fn spec_p(self) -> bool {
        self.bits() & 0x10 != 0
    }

    pub fn new(b_flag: bool, j_flag: bool, z_flag: bool, p_flag: bool) -> (f: Self)
        ensures
            f.bits() == flag_bits(b_flag, j_flag, z_flag, p_flag),
            f.bits() & 0x0F == 0,
            f.spec_b() == b_flag,
            f.spec_j() == j_flag,
            f.spec_z() == z_flag,
            f.spec_p() == p_flag,
    {
        let mut this = MidiCommandListFlags { flags: 0 };
        this.set_flag(MidiCommandSectionFlagMasks::B, b_flag);
        this.set_flag(MidiCommandSectionFlagMasks::J, j_flag);
        this.set_flag(MidiCommandSectionFlagMasks::Z, z_flag);
        this.set_flag(MidiCommandSectionFlagMasks::P, p_flag);
        proof {
            lemma_set_flags(this.flags, b_flag, j_flag, z_flag, p_flag);
        }
        this
    }

    fn get_flag(&self, flag: MidiCommandSectionFlagMasks) -> (r: bool)
        ensures
            r == (self.flags & flag.spec_mask() != 0),
    {
        self.flags & flag.mask() != 0
    }

    fn set_flag(&mut self, flag: MidiCommandSectionFlagMasks, value: bool)
        ensures
            final(self).flags == if value {
                old(self).flags | flag.spec_mask()
            } else {
                old(self).flags & !flag.spec_mask()
            },
    {
        if value {
            self.flags = self.flags | flag.mask();
        } else {
            self.flags = self.flags & !flag.mask();
        }
    }

    pub fn j_flag(&self) -> (r: bool)
        ensures
            r == self.spec_j(),
    {
        self.get_flag(MidiCommandSectionFlagMasks::J)
    }

    pub fn b_flag(&self) -> (r: bool)
        ensures
            r == self.spec_b(),
    {
        self.get_flag(MidiCommandSectionFlagMasks::B)
    }

    pub fn z_flag(&self) -> (r: bool)
        ensures
            r == self.spec_z(),
    {
        self.get_flag(MidiCommandSectionFlagMasks::Z)
    }

    pub fn p_flag(&self) -> (r: bool)
        ensures
            r == self.spec_p(),
    {
        self.get_flag(MidiCommandSectionFlagMasks::P)
    }

    /// A list longer than fifteen bytes needs the two-byte header.
    pub fn needs_b_flag(size: usize) -> (r: bool)
        ensures
            r == (size > 0x0F),
    {
        size > 0x0F
    }

    /// The flags in the upper four bits of the first byte.
    pub fn from_be_bytes(bytes: &[u8]) -> (f: Self)
        requires
            bytes@.len() >= 1,
        ensures
            f.bits() == bytes@[0] & 0xF0,
            f.bits() & 0x0F == 0,
    {
        let b = bytes[0];
        assert((b & 0xF0) & 0x0F == 0) by { lemma_byte_bits(); }
        MidiCommandListFlags { flags: bytes[0] & 0xF0 }
    }
}

/// The bytes of a header: with a length above fifteen, two bytes holding the
/// flags with B set and the length's low twelve bits; else one byte holding the
/// flags and the length's low four bits.
pub open spec fn header_encoding(flags: u8, length: usize) -> Seq<u8> {
    if length > 0x0F {
        let v = (0x8000u16 | ((flags as u16) << 8u16) | ((length as u16) & 0x0FFFu16)) as u16;
        seq![(v / 0x100) as u8, (v % 0x100) as u8]
    } else {
        seq![flags | ((length as u8) & 0x0F)]
    }
}

/// The length field of the header at the front of `bytes`, whose flags are `flags`.
pub open spec fn header_length_of(flags: u8, bytes: Seq<u8>) -> nat {
    if flags & 0x80 != 0 {
        ((bytes[0] & 0x0F) as nat) * 0x100 + bytes[1] as nat
    } else {
        (bytes[0] & 0x0F) as nat
    }
}

impl MidiCommandListHeader {
    pub const MAX_HEADER_SIZE: usize = 2;

    pub closed spec fn spec_flags(self) -> MidiCommandListFlags {
        self.flags
    }

    pub closed spec fn spec_length(self) -> usize {
        self.length
    }

    pub fn new(flags: MidiCommandListFlags, length: usize) -> (h: Self)
        ensures
            h.spec_flags() == flags,
            h.spec_length() == length,
    {
        MidiCommandListHeader { flags, length }
    }

    pub fn flags(&self) -> (f: &MidiCommandListFlags)
        ensures
            *f == self.spec_flags(),
    {
        &self.flags
    }

    pub fn length(&self) -> (l: usize)
        ensures
            l == self.spec_length(),
    {
        self.length
    }

    /// The header's size: two bytes with the B flag, else one.
    pub fn size(b_flag: bool) -> (n: usize)
        ensures
            n == if b_flag { 2usize } else { 1usize },
    {
        if b_flag {
            2
        } else {
            1
        }
    }

    /// The header for `body`: its length with `z_flag`, the B flag when that
    /// length needs two bytes, and the other flags as given.
    pub fn build_for(body: &MidiCommandSection, j_flag: bool, z_flag: bool, p_flag: bool) -> (h: Self)
        requires
            body.spec_body_size_fits(z_flag),
        ensures
            h.spec_length() == body.spec_body_size(z_flag),
            h.spec_flags().bits() == flag_bits(h.spec_length() > 0x0F, j_flag, z_flag, p_flag),
            h.spec_flags().bits() & 0x0F == 0,
    {
        let length = body.body_size(z_flag);
        let flags = MidiCommandListFlags::new(
            MidiCommandListFlags::needs_b_flag(length),
            j_flag,
            z_flag,
            p_flag,
        );
        Self::new(flags, length)
    }

    /// Writes the header at the front of `bytes`; see `header_encoding`.
    pub fn write_to_bytes(&self, bytes: &mut [u8]) -> (r: Result<usize, Error>)
        requires
            old(bytes)@.len() >= header_encoding(self.spec_flags().bits(), self.spec_length()).len(),
        ensures
            r matches Ok(n) && n == header_encoding(self.spec_flags().bits(), self.spec_length()).len()
                && final(bytes)@ == header_encoding(self.spec_flags().bits(), self.spec_length())
                + old(bytes)@.skip(n as int),
    {
        if self.length > 0x0F {
            let flags_and_length: u16 = 0x8000 | ((self.flags.flags as u16) << 8u16) | ((
            self.length as u16) & 0x0FFF);
            crate::endian::write_u16_be(bytes, flags_and_length);
            assert(bytes@ =~= header_encoding(self.spec_flags().bits(), self.spec_length())
                + old(bytes)@.skip(2));
            Ok(2)
        } else {
            let flags_and_length: u8 = (self.flags.flags) | ((self.length as u8) & 0x0F);
            bytes[0] = flags_and_length;
            assert(bytes@ =~= header_encoding(self.spec_flags().bits(), self.spec_length())
                + old(bytes)@.skip(1));
            Ok(1)
        }
    }

    /// Reads a header: the flags from the first byte, and the length from its
    /// low four bits, followed by the second byte when the B flag is set.
    pub fn from_be_bytes(bytes: &[u8]) -> (r: Result<Self, Error>)
        requires
            bytes@.len() >= 1,
            bytes@[0] & 0x80 != 0 ==> bytes@.len() >= 2,
        ensures
            r matches Ok(h) && h.spec_flags().bits() == bytes@[0] & 0xF0 && h.spec_length()
                == header_length_of(bytes@[0], bytes@),
    {
        let flags = MidiCommandListFlags::from_be_bytes(bytes);
        let b0 = bytes[0];
        assert(((b0 & 0xF0) & 0x80 != 0) == (b0 & 0x80 != 0)) by { lemma_byte_bits(); }
        let result = if flags.b_flag() {
            let length_msb = bytes[0] & 0x0F;
            let length_lsb = bytes[1];
            let length = crate::endian::read_u16_be(&[length_msb, length_lsb]) as usize;
            Self { flags, length }
        } else {
            let length = (bytes[0] & 0x0F) as usize;
            Self { flags, length }
        };
        Ok(result)
    }
}

/// Writing a header and reading it back gives the same flags and length, when
/// the B flag is set exactly for lengths above fifteen and the length fits in
/// twelve bits (as `build_for` arranges it).
pub proof fn lemma_write_then_read(flags: u8, length: usize, rest: Seq<u8>)
    requires
        flags & 0x0F == 0,
        (flags & 0x80 != 0) == (length > 0x0F),
        length <= 0x0FFF,
    ensures
        ({
            let s = header_encoding(flags, length) + rest;
            &&& s.len() >= 1
            &&& s[0] & 0x80 != 0 ==> s.len() >= 2
            &&& s[0] & 0x80 != 0 <==> length > 0x0F
            &&& s[0] & 0xF0 == flags
            &&& header_length_of(s[0], s) == length
        }),
{
    let f = flags;
    let l = length;
    if l > 0x0F {
        let l16 = l as u16;
        let v = (0x8000u16 | ((f as u16) << 8u16) | (l16 & 0x0FFFu16)) as u16;
        assert(v / 0x100 == v >> 8u16 && v % 0x100 == v & 0xFF) by (bit_vector);
        assert(((v >> 8u16) as u8) & 0xF0 == f && ((v >> 8u16) as u8) & 0x80 != 0 && (((((v
            >> 8u16) as u8) & 0x0F) as u16) * 0x100 + ((v & 0xFF) as u8) as u16) == l16)
            by (bit_vector)
            requires
                f & 0x0F == 0,
                f & 0x80 != 0,
                l16 <= 0x0FFF,
                v == (0x8000u16 | ((f as u16) << 8u16) | (l16 & 0x0FFFu16)),
        ;
    } else {
        let l8 = l as u8;
        assert((f | (l8 & 0x0F)) & 0xF0 == f && (f | (l8 & 0x0F)) & 0x80 == 0 && (f | (l8 & 0x0F))
            & 0x0F == l8) by (bit_vector)
            requires
                f & 0x0F == 0,
                f & 0x80 == 0,
                l8 <= 0x0F,
        ;
    }
}

/// A header written by `write_to_bytes` is read back by `from_be_bytes` with the
/// same flags and length, whatever follows it, when the lower four flag bits are
/// clear, B is set exactly for lengths above fifteen, and the length fits in
/// twelve bits.
pub proof fn lemma_header_write_then_read(h: MidiCommandListHeader, q: MidiCommandListHeader, rest: Seq<u8>)
    requires
        h.spec_flags().bits() & 0x0F == 0,
        (h.spec_flags().bits() & 0x80 != 0) == (h.spec_length() > 0x0F),
        h.spec_length() <= 0x0FFF,
        ({
            let s = header_encoding(h.spec_flags().bits(), h.spec_length()) + rest;
            &&& q.spec_flags().bits() == s[0] & 0xF0
            &&& q.spec_length() == header_length_of(s[0], s)
        }),
    ensures
        ({
            let s = header_encoding(h.spec_flags().bits(), h.spec_length()) + rest;
            &&& s.len() >= 1
            &&& s[0] & 0x80 != 0 ==> s.len() >= 2
        }),
        q.spec_flags() == h.spec_flags(),
        q.spec_length() == h.spec_length(),
{
    lemma_write_then_read(h.spec_flags().bits(), h.spec_length(), rest);
    q.spec_flags().lemma_bits_determine(h.spec_flags());
}

} // verus!
