//! A MIDI packet: the RTP header followed by the MIDI command section.
use super::midi_command::MidiCommand;
use super::midi_command_section::{
    lemma_write_then_parse, list_encoding, section_in_bounds, section_reads_back, spec_parse_section, written_view,
    MidiCommandSection,
};
use super::midi_packet_header::MidiPacketHeader;
use super::midi_timed_command::TimedCommand;
use crate::endian::tail_mut;
use crate::io::{Error, ErrorKind};
use vstd::prelude::*;

verus! {

/// The size of the RTP header in bytes.
pub const MIDI_PACKET_HEADER_SIZE: usize = 12;

#[derive(Debug)]
pub struct MidiPacket {
    header: MidiPacketHeader,
    command_section: MidiCommandSection,
}

impl MidiPacket {
    pub closed spec fn spec_header(self) -> MidiPacketHeader {
        self.header
    }

    pub closed spec fn spec_section(self) -> MidiCommandSection {
        self.command_section
    }

    /// A packet of version 2 and payload type 97 holding `commands`.
    pub fn new(sequence_number: u16, timestamp: u32, ssrc: u32, commands: &[TimedCommand]) -> (p:
        Self)
        ensures
            p.spec_header().spec_flags() == 0x8061,
            p.spec_header().spec_sequence_number() == sequence_number,
            p.spec_header().spec_timestamp() == timestamp,
            p.spec_header().spec_ssrc() == ssrc,
            p.spec_section().commands@ == commands@,
            !p.spec_section().phantom_flag,
            !p.spec_section().has_journal,
    {
        MidiPacket {
            header: MidiPacketHeader::new(sequence_number, timestamp, ssrc),
            command_section: MidiCommandSection::new(commands),
        }
    }

    /// Reads the header from the first twelve bytes and the command section from
    /// the rest; the errors are those of the command section.
    pub fn from_be_bytes(bytes: &[u8]) -> (r: Result<Self, Error>)
        requires
            bytes@.len() >= MIDI_PACKET_HEADER_SIZE,
            section_in_bounds(bytes@.skip(12)),
        ensures
            match spec_parse_section(bytes@.skip(12)) {
                Ok(list) => r matches Ok(p) && p.spec_header().spec_bytes() == bytes@.take(12)
                    && super::midi_command_section::timed_views(p.spec_section().commands@) == list,
                Err(k) => r matches Err(e) && e.kind == k,
            },
    {
        let header_bytes = &bytes[0..MIDI_PACKET_HEADER_SIZE];
        let header = match MidiPacketHeader::from_be_bytes(header_bytes) {
            Ok(h) => h,
            Err(e) => return Err(e),
        };
        proof {
            lemma_header_bytes_of_parse(header, bytes@.take(12));
        }
        let command_section_bytes = &bytes[MIDI_PACKET_HEADER_SIZE..bytes.len()];
        assert(command_section_bytes@ =~= bytes@.skip(12));
        let command_section = match MidiCommandSection::from_be_bytes(command_section_bytes) {
            Ok(s) => s,
            Err(e) => return Err(e),
        };
        Ok(Self { header, command_section })
    }

    /// The bytes that `write_to_bytes` writes.
    pub open spec fn spec_encoding(self) -> Seq<u8> {
        self.spec_header().spec_bytes() + self.spec_section().spec_encoding()
    }

    /// Writes the header and then the command section. Fails with `InvalidData`,
    /// writing nothing, when `bytes` is shorter than the header.
    pub fn write_to_bytes(&self, bytes: &mut [u8]) -> (r: Result<usize, Error>)
        requires
            self.spec_section().spec_body_size_fits(false),
            self.spec_section().spec_body_size(false) <= 0x0FFF,
            old(bytes)@.len() < 12 || old(bytes)@.len() >= self.spec_encoding().len(),
        ensures
            match r {
                Ok(n) => {
                    &&& n == self.spec_encoding().len()
                    &&& final(bytes)@ == self.spec_encoding() + old(bytes)@.skip(n as int)
                },
                Err(e) => {
                    &&& old(bytes)@.len() < 12
                    &&& e.kind == ErrorKind::InvalidData
                    &&& final(bytes)@ == old(bytes)@
                },
            },
    {
        let mut bytes_written = match self.header.write_to_bytes(bytes) {
            Ok(n) => n,
            Err(e) => return Err(e),
        };
        let ghost mid = bytes@;
        let tail = tail_mut(bytes, MIDI_PACKET_HEADER_SIZE);
        let n = match self.command_section.write_to_bytes(tail) {
            Ok(n) => n,
            Err(e) => return Err(e),
        };
        bytes_written += n;
        assert(bytes@ =~= self.spec_encoding() + old(bytes)@.skip(bytes_written as int));
        Ok(bytes_written)
    }

    /// The packet's size in bytes.
    pub fn size(&self) -> (n: usize)
        requires
            self.spec_section().spec_body_size_fits(false),
            list_encoding(self.spec_section().commands@, false).len() + 15 <= usize::MAX,
        ensures
            n == 12 + (if self.spec_section().spec_body_size(false) > 0x0F {
                2nat
            } else {
                1nat
            }) + self.spec_section().spec_body_size(false),
    {
        MIDI_PACKET_HEADER_SIZE + self.command_section.size()
    }

    pub fn commands(&self) -> (c: &[TimedCommand])
        ensures
            c@ == self.spec_section().commands@,
    {
        self.command_section.commands()
    }

    pub fn sequence_number(&self) -> (s: u16)
        ensures
            s == self.spec_header().spec_sequence_number(),
    {
        self.header.sequence_number()
    }

    pub fn header(&self) -> (h: &MidiPacketHeader)
        ensures
            *h == self.spec_header(),
    {
        &self.header
    }

    pub fn command_section(&self) -> (s: &MidiCommandSection)
        ensures
            *s == self.spec_section(),
    {
        &self.command_section
    }
}

/// A header read from twelve bytes writes those same twelve bytes.
proof fn lemma_header_bytes_of_parse(h: MidiPacketHeader, s: Seq<u8>)
    requires
        s.len() == 12,
        h.spec_flags() == crate::endian::be_u16_value(s),
        h.spec_sequence_number() == crate::endian::be_u16_value(s.skip(2)),
        h.spec_timestamp() == crate::endian::be_u32_value(s.skip(4)),
        h.spec_ssrc() == crate::endian::be_u32_value(s.skip(8)),
    ensures
        h.spec_bytes() == s,
{
    crate::endian::lemma_u16_be_bytes_of_value(s);
    crate::endian::lemma_u16_be_bytes_of_value(s.skip(2));
    crate::endian::lemma_u32_be_bytes_of_value(s.skip(4));
    crate::endian::lemma_u32_be_bytes_of_value(s.skip(8));
    assert(h.spec_bytes() =~= s);
}

/// A packet written by `write_to_bytes` is read back by `from_be_bytes`,
/// whatever follows it: the same header bytes, and its commands as the section
/// law gives them, under the conditions of that law.
pub proof fn lemma_write_then_read(p: MidiPacket, rest: Seq<u8>)
    requires
        section_reads_back(p.spec_section().commands@),
        list_encoding(p.spec_section().commands@, false).len() <= 0x0F,
    ensures
        ({
            let b = p.spec_encoding() + rest;
            &&& b.len() >= MIDI_PACKET_HEADER_SIZE
            &&& section_in_bounds(b.skip(12))
            &&& b.take(12) == p.spec_header().spec_bytes()
            &&& spec_parse_section(b.skip(12)) == Ok::<Seq<(Option<Seq<u8>>, MidiCommand)>, ErrorKind>(
                Seq::new(p.spec_section().commands@.len(), |j: int| written_view(p.spec_section().commands@, j)),
            )
        }),
{
    let h = p.spec_header().spec_bytes();
    let sec = p.spec_section().spec_encoding();
    let b = p.spec_encoding() + rest;
    assert(b =~= h + (sec + rest));
    assert(b.skip(12) =~= sec + rest);
    assert(b.take(12) =~= h);
    lemma_write_then_parse(p.spec_section(), rest);
}

} // verus!
