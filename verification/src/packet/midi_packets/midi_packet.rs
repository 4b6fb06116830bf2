//! A MIDI packet: the RTP header, the header of the command list and the
//! command list, read from bytes and appended to a byte sink.
use super::midi_command_list_body::{
    body_size, events_of, lemma_ends_list, lemma_write_then_read as lemma_body_write_then_read,
    list_read_in_bounds, spec_list_read, stream_reads_back, MidiCommandListBody,
};
use super::midi_command_list_header::{
    header_write_bytes, lemma_write_then_read as lemma_header_write_then_read, spec_header_read,
    MidiCommandListFlags, MidiCommandListHeader,
};
use super::midi_packet_header::MidiPacketHeader;
use super::midi_timed_command::{timed_read_as, TimedCommand};
use crate::endian::{be_u16_value, be_u32_value, lemma_u16_be_roundtrip, lemma_u32_be_roundtrip, u16_be_bytes, u32_be_bytes};
use crate::io::{Error, ErrorKind};
use crate::packet::midi_packet::midi_command_list_header::{flag_bits, lemma_flag_bits};
use crate::packets::midi_packets::midi_command_iterator::{written_event, EventView};
use crate::packets::midi_packets::midi_command_list_body::{event_list_bytes, running_status_before};
use crate::stream::{put_slice, ByteReader, ByteSink};
use vstd::prelude::*;

verus! {

#[derive(Debug)]
pub struct MidiPacket {
    header: MidiPacketHeader,
    command_list: MidiCommandListBody,
}

/// The flag byte of the command list header that `write` builds for a list of
/// `l` bytes (as `size` counts them).
pub open spec fn list_flag_bits(l: nat, z_flag: bool) -> u8 {
    flag_bits(l > 0x0F, false, z_flag, false)
}

/// What reading a packet from `bytes` gives: the sequence number, timestamp
/// and SSRC of the RTP header, and the commands of the list that the command
/// list header covers, the first with a delta time only when Z is set; or the
/// failure. The header and the list header fail with `UnexpectedEof` when the
/// bytes run out.
pub open spec fn spec_packet_read(bytes: Seq<u8>) -> Result<(u16, u32, u32, Seq<EventView>), ErrorKind> {
    if bytes.len() < 12 {
        Err(ErrorKind::UnexpectedEof)
    } else {
        match spec_header_read(bytes.skip(12)) {
            Err(k) => Err(k),
            Ok((f, l, n)) => match spec_list_read(
                bytes.subrange((12 + n) as int, (12 + n + l) as int),
                None,
                f & 0x20 != 0,
            ) {
                Ok(evs) => Ok(
                    (
                        be_u16_value(bytes.skip(2)) as u16,
                        be_u32_value(bytes.skip(4)) as u32,
                        be_u32_value(bytes.skip(8)) as u32,
                        evs,
                    ),
                ),
                Err(k) => Err(k),
            },
        }
    }
}

/// The inputs on which reading a packet stays within `bytes`: the list that
/// the list header covers lies within them, and reading it stays within its
/// data buffer.
pub open spec fn packet_in_bounds(bytes: Seq<u8>) -> bool {
    bytes.len() >= 12 ==> match spec_header_read(bytes.skip(12)) {
        Ok((f, l, n)) => {
            &&& 12 + n + l <= bytes.len()
            &&& list_read_in_bounds(bytes.subrange((12 + n) as int, (12 + n + l) as int), None, f & 0x20 != 0)
        },
        Err(_) => true,
    }
}

impl MidiPacket {
    pub closed spec fn spec_header(&self) -> MidiPacketHeader {
        self.header
    }

    pub closed spec fn spec_body(&self) -> MidiCommandListBody {
        self.command_list
    }

    /// The number of bytes of the command list.
    pub open spec fn spec_list_len(&self, z_flag: bool) -> nat {
        self.spec_body().spec_list_bytes(z_flag).len()
    }

    /// The bytes that `write` appends: the RTP header, the list header built
    /// for the list, then the list.
    pub open spec fn spec_write_bytes(&self, z_flag: bool) -> Seq<u8> {
        let l = body_size(self.spec_list_len(z_flag));
        self.spec_header().spec_bytes() + header_write_bytes(list_flag_bits(l, z_flag), l as usize)
            + self.spec_body().spec_list_bytes(z_flag)
    }

    /// The number of bytes that `size` gives.
    pub open spec fn spec_size(&self, z_flag: bool) -> nat {
        let l = body_size(self.spec_list_len(z_flag));
        12 + (if l > 0x0F {
            2nat
        } else {
            1nat
        }) + l
    }

    /// A packet of RTP version 2 and payload type 97 holding copies of `commands`.
    pub fn new(sequence_number: u16, timestamp: u32, ssrc: u32, commands: &[TimedCommand]) -> (p: Self)
        ensures
            p.spec_header().spec_flags() == 0x8061,
            p.spec_header().spec_sequence_number() == sequence_number,
            p.spec_header().spec_timestamp() == timestamp,
            p.spec_header().spec_ssrc() == ssrc,
            p.spec_body().spec_commands().len() == commands@.len(),
            forall|i: int|
                0 <= i < commands@.len() ==> {
                    &&& #[trigger] p.spec_body().spec_commands()[i].spec_delta_time()
                        == commands@[i].spec_delta_time()
                    &&& p.spec_body().spec_commands()[i].spec_command().same_as(commands@[i].spec_command())
                },
    {
        MidiPacket {
            header: MidiPacketHeader::new(sequence_number, timestamp, ssrc),
            command_list: MidiCommandListBody::new(commands),
        }
    }

    /// Reads the RTP header and the command list header, then the commands of
    /// the list that the list header covers, the first with a delta time only
    /// when Z is set; see `spec_packet_read`.
    pub fn from_be_bytes(bytes: &[u8]) -> (r: Result<Self, Error>)
        requires
            packet_in_bounds(bytes@),
        ensures
            match spec_packet_read(bytes@) {
                Ok((s, t, c, evs)) => {
                    &&& r matches Ok(p)
                    &&& p.spec_header().spec_sequence_number() == s
                    &&& p.spec_header().spec_timestamp() == t
                    &&& p.spec_header().spec_ssrc() == c
                    &&& p.spec_body().spec_commands().len() == evs.len()
                    &&& forall|i: int|
                        0 <= i < evs.len() ==> timed_read_as(#[trigger] p.spec_body().spec_commands()[i], evs[i])
                },
                Err(k) => r matches Err(e) && e.kind == k,
            },
    {
        let mut data: Vec<u8> = Vec::new();
        put_slice(&mut data, bytes);
        let mut reader = ByteReader::new(data);
        let header = match MidiPacketHeader::read(&mut reader) {
            Ok(h) => h,
            Err(e) => return Err(e),
        };
        let command_section_header = match MidiCommandListHeader::read(&mut reader) {
            Ok(h) => h,
            Err(e) => return Err(e),
        };
        let ghost hr = spec_header_read(bytes@.skip(12))->Ok_0;
        let command_section_start = reader.position();
        proof {
            assert(reader.rest() == bytes@.skip(12).skip(hr.2 as int));
            assert(bytes@.skip(12).skip(hr.2 as int) =~= bytes@.skip((12 + hr.2) as int));
            assert(reader.rest().len() == bytes@.len() - (12 + hr.2));
            assert(command_section_start == 12 + hr.2);
        }
        let command_section_end = command_section_start + command_section_header.length();
        let mut section: Vec<u8> = Vec::new();
        put_slice(&mut section, &bytes[command_section_start..command_section_end]);
        let mut command_section_cursor = ByteReader::new(section);
        let command_section = match MidiCommandListBody::read(
            &mut command_section_cursor,
            command_section_header.flags().z_flag(),
        ) {
            Ok(b) => b,
            Err(e) => return Err(e),
        };
        proof {
            assert(be_u16_value(bytes@.skip(12)) == be_u16_value(bytes@.skip(12)));
        }
        Ok(Self { header, command_list: command_section })
    }

    /// Appends the RTP header, the list header built for the list (J and P
    /// clear, Z as given) and the list; returns the number of bytes appended.
    pub fn write<W: ByteSink>(&self, writer: &mut W, z_flag: bool) -> (r: Result<usize, Error>)
        requires
            old(writer).sink_room() >= self.spec_list_len(z_flag) + 30,
            self.spec_list_len(z_flag) + 30 <= usize::MAX,
        ensures
            r matches Ok(n) && n == self.spec_write_bytes(z_flag).len(),
            final(writer).sink_contents() == old(writer).sink_contents() + self.spec_write_bytes(z_flag),
    {
        let ghost start = writer.sink_contents();
        let mut bytes_written = match self.header.write(writer) {
            Ok(n) => n,
            Err(e) => return Err(e),
        };
        let command_section_header = MidiCommandListHeader::build_for(&self.command_list, false, z_flag, false);
        bytes_written += match command_section_header.write(writer) {
            Ok(n) => n,
            Err(e) => return Err(e),
        };
        let ghost mid = writer.sink_contents();
        bytes_written += match self.command_list.write(writer, z_flag) {
            Ok(n) => n,
            Err(e) => return Err(e),
        };
        assert(writer.sink_contents() =~= start + self.spec_write_bytes(z_flag));
        Ok(bytes_written)
    }

    /// The packet's bytes as `size` counts them: what `write` appends, and a
    /// zero byte after it when the list is longer than fifteen bytes.
    pub fn to_bytes(&self, z_flag: bool) -> (v: Vec<u8>)
        requires
            self.spec_list_len(z_flag) + 30 <= isize::MAX,
        ensures
            v@ == self.spec_write_bytes(z_flag) + size_pad(self.spec_list_len(z_flag)),
    {
        let size = self.size(z_flag);
        let mut buffer: Vec<u8> = Vec::new();
        let _ = self.write(&mut buffer, z_flag);
        let ghost written = buffer@;
        proof {
            assert(written =~= self.spec_write_bytes(z_flag));
            assert(buffer@.take(written.len() as int) =~= written);
            lemma_flag_bits(body_size(self.spec_list_len(z_flag)) > 0x0F, false, z_flag, false);
        }
        while buffer.len() < size
            invariant
                written == self.spec_write_bytes(z_flag),
                size == self.spec_size(z_flag),
                written.len() <= buffer@.len() <= size,
                buffer@.take(written.len() as int) == written,
                forall|i: int| written.len() <= i < buffer@.len() ==> buffer@[i] == 0u8,
            decreases size - buffer@.len(),
        {
            buffer.push(0);
        }
        proof {
            let pad = size_pad(self.spec_list_len(z_flag));
            assert(size == written.len() + pad.len());
            assert(buffer@ =~= written + pad);
        }
        buffer
    }

    /// The number of bytes of the RTP header, the list header and the list as
    /// `MidiCommandListBody::size` counts it.
    pub fn size(&self, z_flag: bool) -> (n: usize)
        requires
            self.spec_list_len(z_flag) + 16 <= usize::MAX,
        ensures
            n == self.spec_size(z_flag),
    {
        let command_section_size = self.command_list.size(z_flag);
        let needs_b_flag = MidiCommandListFlags::needs_b_flag(command_section_size);
        let command_section_header_size = MidiCommandListHeader::size(needs_b_flag);
        12 + command_section_header_size + command_section_size
    }

    pub fn commands(&self) -> (c: &[TimedCommand])
        ensures
            c@ == self.spec_body().spec_commands(),
    {
        self.command_list.commands()
    }

    pub fn sequence_number(&self) -> (s: u16)
        ensures
            s == self.spec_header().spec_sequence_number(),
    {
        self.header.sequence_number()
    }

    pub fn timestamp(&self) -> (t: u32)
        ensures
            t == self.spec_header().spec_timestamp(),
    {
        self.header.timestamp()
    }

    pub fn ssrc(&self) -> (s: u32)
        ensures
            s == self.spec_header().spec_ssrc(),
    {
        self.header.ssrc()
    }
}

/// The zero byte that `to_bytes` adds after a list longer than fifteen bytes.
pub open spec fn size_pad(list_len: nat) -> Seq<u8> {
    if list_len > 0x0F {
        seq![0u8]
    } else {
        Seq::<u8>::empty()
    }
}

/// A packet's bytes as `to_bytes` gives them are read back by `from_be_bytes`
/// with the same sequence number, timestamp and SSRC, and its commands as
/// written (each with its delta time, zero when it had none, when one was
/// written), when its commands satisfy `stream_reads_back` and the list's size
/// fits the twelve-bit length field.
pub proof fn lemma_to_bytes_then_read(p: MidiPacket, z_flag: bool)
    requires
        stream_reads_back(events_of(p.spec_body().spec_commands())),
        body_size(p.spec_list_len(z_flag)) <= 0x0FFF,
    ensures
        ({
            let bytes = p.spec_write_bytes(z_flag) + size_pad(p.spec_list_len(z_flag));
            let cmds = p.spec_body().spec_commands();
            &&& packet_in_bounds(bytes)
            &&& spec_packet_read(bytes) == Ok::<(u16, u32, u32, Seq<EventView>), ErrorKind>(
                (
                    p.spec_header().spec_sequence_number(),
                    p.spec_header().spec_timestamp(),
                    p.spec_header().spec_ssrc(),
                    Seq::new(cmds.len(), |j: int| written_event(events_of(cmds), j, z_flag)),
                ),
            )
        }),
{
    let h = p.spec_header();
    let cmds = p.spec_body().spec_commands();
    let e = events_of(cmds);
    let n = p.spec_list_len(z_flag);
    let l = body_size(n);
    let f = list_flag_bits(l, z_flag);
    let lh = header_write_bytes(f, l as usize);
    let body = p.spec_body().spec_list_bytes(z_flag);
    let pad = size_pad(n);
    let bytes = p.spec_write_bytes(z_flag) + pad;
    lemma_flag_bits(l > 0x0F, false, z_flag, false);
    lemma_u16_be_roundtrip(h.spec_flags());
    lemma_u16_be_roundtrip(h.spec_sequence_number());
    lemma_u32_be_roundtrip(h.spec_timestamp());
    lemma_u32_be_roundtrip(h.spec_ssrc());
    assert(bytes =~= h.spec_bytes() + (lh + (body + pad)));
    assert(bytes.skip(12) =~= lh + (body + pad));
    lemma_header_write_then_read(f, l as usize, body + pad);
    let hl = lh.len();
    assert(l == body.len() + pad.len());
    assert(bytes.subrange((12 + hl) as int, (12 + hl + l) as int) =~= body + pad);
    let rs_end = running_status_before(e, cmds.len() as int);
    lemma_ends_list(rs_end, cmds.len() > 0 || z_flag);
    if n > 0x0F {
        assert(cmds.len() > 0) by {
            if cmds.len() == 0 {
                assert(e.len() == 0);
                assert(event_list_bytes(e, z_flag) =~= Seq::<u8>::empty());
            }
        }
    }
    lemma_body_write_then_read(cmds, z_flag, pad);
    assert(bytes.skip(2).take(2) =~= u16_be_bytes(h.spec_sequence_number()));
    assert(bytes.skip(4).take(4) =~= u32_be_bytes(h.spec_timestamp()));
    assert(bytes.skip(8).take(4) =~= u32_be_bytes(h.spec_ssrc()));
    assert(be_u16_value(bytes.skip(2)) == be_u16_value(u16_be_bytes(h.spec_sequence_number())));
    assert(be_u32_value(bytes.skip(4)) == be_u32_value(u32_be_bytes(h.spec_timestamp())));
    assert(be_u32_value(bytes.skip(8)) == be_u32_value(u32_be_bytes(h.spec_ssrc())));
}

} // verus!
