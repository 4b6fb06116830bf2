//! A MIDI packet: the RTP header, then a command list, read in place or built
//! into a frozen buffer.
use super::midi_command_iterator::MidiCommandIterator;
use super::midi_command_list_body::{event_list_bytes, MidiEventList};
use super::midi_command_list_header::{list_header_bytes, MidiCommandListHeader};
use super::midi_packet_header::MidiPacketHeader;
use super::midi_timed_command::TimedCommand;
use crate::buffer::{bytes_contents, bytes_mut_with_capacity, freeze};
use crate::endian::{be_u16_value, be_u32_value, u16_from_be_bytes, u32_from_be_bytes};
use crate::io::{Error, ErrorKind};
use crate::packet::midi_packet::midi_command_list_header::flag_bits;
use crate::packet::midi_packet::midi_packet_header::header_bytes;
use crate::stream::ByteSink;
use bytes::Bytes;
use vstd::prelude::*;

verus! {

/// The bytes of a packet built from these fields and commands: the header of
/// version 2 and payload type 97, the list header with B set when the list is
/// longer than fifteen bytes and P set as `p_flag` is, then the list.
pub open spec fn packet_bytes(
    sequence_number: u16,
    timestamp: u32,
    ssrc: u32,
    commands: Seq<TimedCommand>,
    z_flag: bool,
    p_flag: bool,
) -> Seq<u8> {
    let list = event_list_bytes(commands, z_flag);
    header_bytes(0x8061, sequence_number, timestamp, ssrc) + list_header_bytes(
        flag_bits(list.len() > 0x0F, false, false, p_flag),
        list.len() as usize,
    ) + list
}

/// A packet of at least twelve bytes: the header, then the body.
#[derive(Debug)]
pub struct MidiPacket<'a> {
    data: &'a [u8],
}

impl<'a> MidiPacket<'a> {
    pub closed spec fn spec_data(&self) -> Seq<u8> {
        self.data@
    }

    pub open spec fn wf(&self) -> bool {
        self.spec_data().len() >= 12
    }

    /// The bytes after the header.
    pub open spec fn spec_body(&self) -> Seq<u8> {
        self.spec_data().skip(12)
    }

    /// The packet that `bytes` holds: the header, then all that follows as the
    /// body. Fails with `InvalidData` on fewer than twelve bytes.
    pub fn ref_from_prefix(bytes: &'a [u8]) -> (r: Result<Self, Error>)
        ensures
            match r {
                Ok(p) => bytes@.len() >= 12 && p.spec_data() == bytes@ && p.wf(),
                Err(e) => bytes@.len() < 12 && e.kind == ErrorKind::InvalidData,
            },
    {
        if bytes.len() < 12 {
            return Err(Error::new(ErrorKind::InvalidData));
        }
        Ok(MidiPacket { data: bytes })
    }

    /// Builds the bytes of a packet; see `packet_bytes`. The list is laid out as
    /// `z_flag` asks, and its header has P set as `z_flag` is (Z is left clear).
    pub fn new_as_bytes(sequence_number: u16, timestamp: u32, ssrc: u32, commands: &[TimedCommand], z_flag: bool) -> (b: Bytes)
        requires
            event_list_bytes(commands@, z_flag).len() + 32 <= isize::MAX,
        ensures
            bytes_contents(b) == packet_bytes(sequence_number, timestamp, ssrc, commands@, z_flag, z_flag),
    {
        let packet_header = MidiPacketHeader::new(sequence_number, timestamp, ssrc);
        let command_list_header = MidiCommandListHeader::build_for(commands, z_flag);
        let mut buffer = bytes_mut_with_capacity(12 + command_list_header.size() + command_list_header.length());
        let _ = packet_header.write(&mut buffer);
        command_list_header.write(&mut buffer);
        commands.write(&mut buffer, z_flag);
        assert(buffer.sink_contents() =~= packet_bytes(sequence_number, timestamp, ssrc, commands@, z_flag, z_flag));
        freeze(buffer)
    }

    /// The commands of the body.
    pub fn commands(&self) -> (it: MidiCommandIterator<'a>)
        requires
            self.wf(),
            self.spec_body().len() >= 1,
            self.spec_body()[0] & 0x80 != 0 ==> self.spec_body().len() >= 2,
            ({
                let b = self.spec_body();
                let size: int = if b[0] & 0x80 != 0 { 2 } else { 1 };
                let length: int = if b[0] & 0x80 != 0 {
                    (b[0] % 0x10) * 0x100 + b[1]
                } else {
                    (b[0] % 0x10) as int
                };
                size + length <= b.len()
            }),
        ensures
            ({
                let b = self.spec_body();
                let size: int = if b[0] & 0x80 != 0 { 2 } else { 1 };
                let length: int = if b[0] & 0x80 != 0 {
                    (b[0] % 0x10) * 0x100 + b[1]
                } else {
                    (b[0] % 0x10) as int
                };
                &&& it.spec_data() == b.subrange(size, size + length)
                &&& it.spec_running_status() is None
                &&& it.spec_read_delta_time() == (b[0] & 0x20 != 0)
            }),
    {
        let body = &self.data[12..self.data.len()];
        assert(body@ =~= self.spec_body());
        MidiCommandIterator::new(body)
    }

    pub fn sequence_number(&self) -> (s: u16)
        requires
            self.wf(),
        ensures
            s == be_u16_value(self.spec_data().skip(2)),
    {
        let b = [self.data[2], self.data[3]];
        assert(b@ =~= self.spec_data().skip(2).take(2));
        u16_from_be_bytes(b)
    }

    pub fn timestamp(&self) -> (t: u32)
        requires
            self.wf(),
        ensures
            t == be_u32_value(self.spec_data().skip(4)),
    {
        let b = [self.data[4], self.data[5], self.data[6], self.data[7]];
        assert(b@ =~= self.spec_data().skip(4).take(4));
        u32_from_be_bytes(b)
    }

    pub fn ssrc(&self) -> (s: u32)
        requires
            self.wf(),
        ensures
            s == be_u32_value(self.spec_data().skip(8)),
    {
        let b = [self.data[8], self.data[9], self.data[10], self.data[11]];
        assert(b@ =~= self.spec_data().skip(8).take(4));
        u32_from_be_bytes(b)
    }
}

} // verus!
