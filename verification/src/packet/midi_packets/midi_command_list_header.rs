//! The header in front of a MIDI command list, read from a byte stream and
//! appended to a byte sink: the B, J, Z and P flags and the list's length.
use super::midi_command_list_body::{body_size, MidiCommandListBody};
use crate::byte_facts::{lemma_byte_bits, lemma_join_bytes};
use crate::endian::{u16_be_bytes, write_u16_be};
use crate::io::{Error, ErrorKind};
use crate::packet::midi_packet::midi_command_list_header::{flag_bits, lemma_set_flags};
use crate::stream::{ByteReader, ByteSink};
use vstd::prelude::*;

verus! {

pub struct MidiCommandListHeader {
    flags: MidiCommandListFlags,
    length: usize,
}

/// The B, J, Z and P flags, in the upper four bits of a byte.
#[derive(Debug, Clone, Copy, PartialEq, Eq, Structural)]
pub struct MidiCommandListFlags {
    flags: u8,
}

enum MidiCommandSectionFlagMasks {
    B,
    J,
    Z,
    P,
}

impl MidiCommandSectionFlagMasks {
    spec fn spec_mask(self) -> u8 {
        match self {
            MidiCommandSectionFlagMasks::B => 0b1000_0000,
            MidiCommandSectionFlagMasks::J => 0b0100_0000,
            MidiCommandSectionFlagMasks::Z => 0b0010_0000,
            MidiCommandSectionFlagMasks::P => 0b0001_0000,
        }
    }

    fn mask(&self) -> (m: u8)
        ensures
            m == self.spec_mask(),
    {
        match self {
            MidiCommandSectionFlagMasks::B => 0b1000_0000,
            MidiCommandSectionFlagMasks::J => 0b0100_0000,
            MidiCommandSectionFlagMasks::Z => 0b0010_0000,
            MidiCommandSectionFlagMasks::P => 0b0001_0000,
        }
    }
}

impl MidiCommandListFlags {
    /// The flag byte.
    pub closed spec fn bits(self) -> u8 {
        self.flags
    }

    /// Flags with the same bits are the same flags.
    pub proof fn lemma_bits_determine(self, other: Self)
        requires
            self.bits() == other.bits(),
        ensures
            self == other,
    {
    }

    pub open spec fn spec_b(self) -> bool {
        self.bits() & 0x80 != 0
    }

    pub open spec fn spec_j(self) -> bool {
        self.bits() & 0x40 != 0
    }

    pub open spec fn spec_z(self) -> bool {
        self.bits() & 0x20 != 0
    }

    pub open spec fn spec_p(self) -> bool {
        self.bits() & 0x10 != 0
    }

    /// The lower four bits are clear.
    pub open spec fn wf(self) -> bool {
        self.bits() & 0x0F == 0
    }

    pub fn new(b_flag: bool, j_flag: bool, z_flag: bool, p_flag: bool) -> (f: Self)
        ensures
            f.bits() == flag_bits(b_flag, j_flag, z_flag, p_flag),
            f.wf(),
            f.spec_b() == b_flag,
            f.spec_j() == j_flag,
            f.spec_z() == z_flag,
            f.spec_p() == p_flag,
    {
        let mut this = MidiCommandListFlags { flags: 0 };
        this.set_flag(MidiCommandSectionFlagMasks::B, b_flag);
        this.set_flag(MidiCommandSectionFlagMasks::J, j_flag);
        this.set_flag(MidiCommandSectionFlagMasks::Z, z_flag);
        this.set_flag(MidiCommandSectionFlagMasks::P, p_flag);
        proof {
            lemma_set_flags(this.flags, b_flag, j_flag, z_flag, p_flag);
        }
        this
    }

    fn get_flag(&self, flag: MidiCommandSectionFlagMasks) -> (r: bool)
        ensures
            r == (self.flags & flag.spec_mask() != 0),
    {
        self.flags & flag.mask() != 0
    }

    fn set_flag(&mut self, flag: MidiCommandSectionFlagMasks, value: bool)
        ensures
            final(self).flags == if value {
                old(self).flags | flag.spec_mask()
            } else {
                old(self).flags & !flag.spec_mask()
            },
    {
        if value {
            self.flags |= flag.mask();
        } else {
            self.flags &= !flag.mask();
        }
    }

    pub fn j_flag(&self) -> (r: bool)
        ensures
            r == self.spec_j(),
    {
        self.get_flag(MidiCommandSectionFlagMasks::J)
    }

    pub fn b_flag(&self) -> (r: bool)
        ensures
            r == self.spec_b(),
    {
        self.get_flag(MidiCommandSectionFlagMasks::B)
    }

    pub fn z_flag(&self) -> (r: bool)
        ensures
            r == self.spec_z(),
    {
        self.get_flag(MidiCommandSectionFlagMasks::Z)
    }

    pub fn p_flag(&self) -> (r: bool)
        ensures
            r == self.spec_p(),
    {
        self.get_flag(MidiCommandSectionFlagMasks::P)
    }

    /// A list longer than fifteen bytes needs the two-byte header.
    pub fn needs_b_flag(size: usize) -> (r: bool)
        ensures
            r == (size > 0x0F),
    {
        size > 0x0F
    }

    /// The flags in the upper four bits of `byte`.
    pub fn from_u8(byte: u8) -> (f: Self)
        ensures
            f.bits() == byte & 0xF0,
            f.wf(),
    {
        assert((byte & 0xF0) & 0x0F == 0) by {
            lemma_byte_bits();
        }
        MidiCommandListFlags { flags: byte & 0xF0 }
    }
}

/// The bytes that `write` appends for flag byte `flags` and length `length`:
/// with B set, the big-endian value of 0x8000, the flags shifted up by eight
/// and the length's low twelve bits; else the flags with the length's low four
/// bits.
pub open spec fn header_write_bytes(flags: u8, length: usize) -> Seq<u8> {
    if flags & 0x80 != 0 {
        u16_be_bytes((0x8000u16 | ((flags as u16) << 8u16) | ((length as u16) & 0x0FFFu16)) as u16)
    } else {
        seq![flags | ((length as u8) & 0x0F)]
    }
}

/// What `read` takes from a stream whose unread bytes are `rest`: the flag
/// byte, the length and the number of bytes read; `UnexpectedEof` when they
/// run out.
pub open spec fn spec_header_read(rest: Seq<u8>) -> Result<(u8, nat, nat), ErrorKind> {
    if rest.len() == 0 {
        Err(ErrorKind::UnexpectedEof)
    } else if rest[0] & 0x80 != 0 {
        if rest.len() < 2 {
            Err(ErrorKind::UnexpectedEof)
        } else {
            Ok((rest[0] & 0xF0, ((rest[0] % 0x10) * 0x100 + rest[1]) as nat, 2))
        }
    } else {
        Ok((rest[0] & 0xF0, (rest[0] % 0x10) as nat, 1))
    }
}

impl MidiCommandListHeader {
    pub closed spec fn spec_flags(self) -> MidiCommandListFlags {
        self.flags
    }

    pub closed spec fn spec_length(self) -> usize {
        self.length
    }

    pub fn new(flags: MidiCommandListFlags, length: usize) -> (h: Self)
        ensures
            h.spec_flags() == flags,
            h.spec_length() == length,
    {
        MidiCommandListHeader { flags, length }
    }

    pub fn flags(&self) -> (f: &MidiCommandListFlags)
        ensures
            *f == self.spec_flags(),
    {
        &self.flags
    }

    pub fn length(&self) -> (l: usize)
        ensures
            l == self.spec_length(),
    {
        self.length
    }

    /// The number of header bytes: two with the B flag, else one.
    pub fn size(b_flag: bool) -> (n: usize)
        ensures
            n == if b_flag {
                2usize
            } else {
                1usize
            },
    {
        if b_flag {
            2
        } else {
            1
        }
    }

    /// The header for `body`: its size with `z_flag` as the length, B set when
    /// that is above fifteen, and the other flags as given.
    pub fn build_for(body: &MidiCommandListBody, j_flag: bool, z_flag: bool, p_flag: bool) -> (h: Self)
        requires
            body.spec_list_bytes(z_flag).len() + 1 <= usize::MAX,
        ensures
            h.spec_length() == body_size(body.spec_list_bytes(z_flag).len()),
            h.spec_flags().bits() == flag_bits(h.spec_length() > 0x0F, j_flag, z_flag, p_flag),
            h.spec_flags().wf(),
            h.spec_flags().spec_b() == (h.spec_length() > 0x0F),
            h.spec_flags().spec_z() == z_flag,
    {
        let length = body.size(z_flag);
        let flags = MidiCommandListFlags::new(
            MidiCommandListFlags::needs_b_flag(length),
            j_flag,
            z_flag,
            p_flag,
        );
        Self::new(flags, length)
    }

    /// Appends the header; see `header_write_bytes`. Returns the number of
    /// bytes appended.
    pub fn write<W: ByteSink>(&self, writer: &mut W) -> (r: Result<usize, Error>)
        requires
            old(writer).sink_room() >= 2,
        ensures
            r matches Ok(n) && n == header_write_bytes(self.spec_flags().bits(), self.spec_length()).len(),
            final(writer).sink_contents() == old(writer).sink_contents() + header_write_bytes(
                self.spec_flags().bits(),
                self.spec_length(),
            ),
            final(writer).sink_room() == old(writer).sink_room() - header_write_bytes(
                self.spec_flags().bits(),
                self.spec_length(),
            ).len(),
    {
        if self.flags.b_flag() {
            let flags_and_length: u16 = 0x8000 | ((self.flags.flags as u16) << 8u16) | ((
            self.length as u16) & 0x0FFF);
            let mut buf = [0u8; 2];
            write_u16_be(&mut buf, flags_and_length);
            writer.put_bytes(&buf);
            assert(buf@ =~= u16_be_bytes(flags_and_length));
            Ok(2)
        } else {
            let flags_and_length: u8 = (self.flags.flags) | ((self.length as u8) & 0x0F);
            writer.put_byte(flags_and_length);
            assert(old(writer).sink_contents().push(flags_and_length) =~= old(writer).sink_contents()
                + seq![flags_and_length]);
            Ok(1)
        }
    }

    /// Reads the flag byte and, when B is set, a second byte: the length is
    /// the flag byte's low four bits, followed by the second byte if there is
    /// one. Fails with `UnexpectedEof` when the bytes run out.
    pub fn read(reader: &mut ByteReader) -> (r: Result<Self, Error>)
        requires
            old(reader).wf(),
        ensures
            final(reader).wf(),
            final(reader).spec_data() == old(reader).spec_data(),
            match spec_header_read(old(reader).rest()) {
                Ok((f, l, n)) => {
                    &&& r matches Ok(h) && h.spec_flags().bits() == f && h.spec_flags().wf()
                        && h.spec_length() == l
                    &&& final(reader).rest() == old(reader).rest().skip(n as int)
                },
                Err(k) => r matches Err(e) && e.kind == k,
            },
    {
        let ghost rest0 = reader.rest();
        let first_byte = match reader.read_u8() {
            Ok(b) => b,
            Err(e) => return Err(e),
        };
        let flags = MidiCommandListFlags::from_u8(first_byte);
        assert((first_byte & 0xF0) & 0x80 == first_byte & 0x80 && first_byte & 0x0F == first_byte
            % 0x10) by {
            lemma_byte_bits();
        }
        let result = if flags.b_flag() {
            let length_lsb = match reader.read_u8() {
                Ok(b) => b,
                Err(e) => return Err(e),
            };
            let hi = (first_byte & 0x0F) as u16;
            let lo = length_lsb as u16;
            let length = (hi << 8) | lo;
            assert(length == hi * 0x100 + lo) by {
                lemma_join_bytes();
                assert((hi << 8u16) | lo == hi * 0x100 + lo);
            }
            proof {
                assert(rest0.skip(1).skip(1) =~= rest0.skip(2));
            }
            Self { flags, length: length as usize }
        } else {
            let length = (first_byte & 0x0F) as usize;
            Self { flags, length }
        };
        Ok(result)
    }
}

/// A header written by `write` is read back by `read` with the same flags and
/// length, whatever follows it, when the lower four bits of the flags are clear
/// and the length fits the header: twelve bits with B set, four without.
pub proof fn lemma_write_then_read(flags: u8, length: usize, rest: Seq<u8>)
    requires
        flags & 0x0F == 0,
        flags & 0x80 != 0 ==> length <= 0x0FFF,
        flags & 0x80 == 0 ==> length <= 0x0F,
    ensures
        spec_header_read(header_write_bytes(flags, length) + rest) == Ok::<(u8, nat, nat), ErrorKind>(
            (flags, length as nat, header_write_bytes(flags, length).len()),
        ),
{
    let f = flags;
    let s = header_write_bytes(f, length) + rest;
    if f & 0x80 != 0 {
        let l = length as u16;
        let v = (0x8000u16 | ((f as u16) << 8u16) | (l & 0x0FFFu16)) as u16;
        let b0 = (v / 0x100) as u8;
        let b1 = (v % 0x100) as u8;
        assert(b0 & 0x80 != 0 && b0 & 0xF0 == f && (b0 % 0x10) as int * 0x100 + b1 as int == l as int)
            by (bit_vector)
            requires
                f & 0x0F == 0,
                f & 0x80 != 0,
                l <= 0x0FFF,
                v == (0x8000u16 | ((f as u16) << 8u16) | (l & 0x0FFFu16)),
                b0 == (v / 0x100) as u8,
                b1 == (v % 0x100) as u8,
        ;
        assert(s[0] == b0 && s[1] == b1);
    } else {
        let l = length as u8;
        let b0 = f | (l & 0x0F);
        assert(b0 & 0x80 == 0 && b0 & 0xF0 == f && b0 % 0x10 == l) by (bit_vector)
            requires
                f & 0x0F == 0,
                f & 0x80 == 0,
                l <= 0x0F,
                b0 == f | (l & 0x0F),
        ;
        assert(s[0] == b0);
    }
}

} // verus!
