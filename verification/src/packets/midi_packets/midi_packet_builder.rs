//! Building the bytes of a MIDI packet whose first command has no delta time.
use super::midi_command_list_body::{event_list_bytes, MidiEventList};
use super::midi_command_list_header::{MidiCommandListFlags, MidiCommandListHeader};
use super::midi_command_iterator::{iter_in_bounds, lemma_write_then_iterate, list_reads_back, spec_iter_events, written_event};
use super::midi_command_list_header::{lemma_write_then_read as lemma_list_header_read, list_header_bytes};
use super::midi_packet::packet_bytes;
use crate::endian::{be_u16_value, be_u32_value, lemma_u16_be_roundtrip, lemma_u32_be_roundtrip, u16_be_bytes, u32_be_bytes};
use crate::packet::midi_packet::midi_command_list_header::flag_bits;
use crate::packet::midi_packet::midi_packet_header::header_bytes;
use super::midi_packet_header::MidiPacketHeader;
use super::midi_timed_command::TimedCommand;
use crate::buffer::{bytes_contents, bytes_mut_with_capacity, freeze};
use crate::stream::ByteSink;
use bytes::Bytes;
use vstd::prelude::*;

verus! {

/// A packet header and the commands that follow it.
pub struct MidiPacketBuilder<'a> {
    header: MidiPacketHeader,
    command_list: &'a [TimedCommand],
}

impl<'a> MidiPacketBuilder<'a> {
    /// The bytes of a packet with these fields and commands, the list header's
    /// J, Z and P flags clear; see `packet_bytes`.
    pub fn new_as_bytes(sequence_number: u16, timestamp: u32, ssrc: u32, commands: &'a [TimedCommand]) -> (b: Bytes)
        requires
            event_list_bytes(commands@, false).len() + 32 <= isize::MAX,
        ensures
            bytes_contents(b) == packet_bytes(sequence_number, timestamp, ssrc, commands@, false, false),
    {
        let header = MidiPacketHeader::new(sequence_number, timestamp, ssrc);
        let length = commands.size(false);
        let b_flag = MidiCommandListFlags::needs_b_flag(length);
        let flags = MidiCommandListFlags::new(b_flag, false, false, false);
        let command_list_header = MidiCommandListHeader::new(flags, length);
        let builder = MidiPacketBuilder { header, command_list: commands };
        let mut buffer = bytes_mut_with_capacity(12 + length);
        let _ = builder.header.write(&mut buffer);
        command_list_header.write(&mut buffer);
        builder.command_list.write(&mut buffer, false);
        assert(buffer.sink_contents() =~= packet_bytes(sequence_number, timestamp, ssrc, commands@, false, false));
        freeze(buffer)
    }
}

/// A packet built from commands that satisfy `list_reads_back`, with a list of
/// at most 0xFFF bytes, reads back whole: the header gives the sequence number,
/// timestamp and SSRC, the list header covers exactly the list with Z clear, and
/// iterating over the list gives the commands back.
pub proof fn lemma_built_packet_reads_back(sequence_number: u16, timestamp: u32, ssrc: u32, cmds: Seq<TimedCommand>)
    requires
        list_reads_back(cmds, false),
        event_list_bytes(cmds, false).len() <= 0xFFF,
    ensures
        ({
            let bytes = packet_bytes(sequence_number, timestamp, ssrc, cmds, false, false);
            let body = bytes.skip(12);
            let list = event_list_bytes(cmds, false);
            let size: int = if body[0] & 0x80 != 0 { 2 } else { 1 };
            let length: int = if body[0] & 0x80 != 0 {
                (body[0] % 0x10) * 0x100 + body[1]
            } else {
                (body[0] % 0x10) as int
            };
            &&& bytes.len() >= 12
            &&& be_u16_value(bytes.skip(2)) == sequence_number
            &&& be_u32_value(bytes.skip(4)) == timestamp
            &&& be_u32_value(bytes.skip(8)) == ssrc
            &&& body.len() >= 1
            &&& body[0] & 0x80 != 0 ==> body.len() >= 2
            &&& size + length == body.len()
            &&& body[0] & 0x20 == 0
            &&& body.subrange(size, size + length) == list
            &&& iter_in_bounds(list, false, None)
            &&& spec_iter_events(list, false, None) == Seq::new(cmds.len(), |j: int| written_event(cmds, j, false))
        }),
{
    let list = event_list_bytes(cmds, false);
    let l = list.len() as usize;
    let f = flag_bits(list.len() > 0x0F, false, false, false);
    assert((0x80u8 | 0u8 | 0u8 | 0u8) == 0x80u8 && (0u8 | 0u8 | 0u8 | 0u8) == 0u8 && 0x80u8 & 0x0F
        == 0 && 0x80u8 & 0x80 != 0 && 0x80u8 & 0x20 == 0 && 0u8 & 0x0F == 0 && 0u8 & 0x80 == 0 && 0u8
        & 0x20 == 0) by (bit_vector);
    assert(f == if list.len() > 0x0F { 0x80u8 } else { 0u8 });
    let hb = header_bytes(0x8061, sequence_number, timestamp, ssrc);
    let lh = list_header_bytes(f, l);
    let bytes = packet_bytes(sequence_number, timestamp, ssrc, cmds, false, false);
    assert(bytes == hb + lh + list);
    lemma_u16_be_roundtrip(0x8061);
    lemma_u16_be_roundtrip(sequence_number);
    lemma_u32_be_roundtrip(timestamp);
    lemma_u32_be_roundtrip(ssrc);
    assert(bytes.skip(2).take(2) =~= u16_be_bytes(sequence_number));
    assert(bytes.skip(4).take(4) =~= u32_be_bytes(timestamp));
    assert(bytes.skip(8).take(4) =~= u32_be_bytes(ssrc));
    let body = bytes.skip(12);
    assert(body =~= lh + list);
    lemma_list_header_read(f, l, list);
    let size: int = if body[0] & 0x80 != 0 { 2 } else { 1 };
    assert(lh.len() == size);
    assert(body.subrange(size, size + l) =~= list);
    lemma_write_then_iterate(cmds, false);
}

} // verus!
