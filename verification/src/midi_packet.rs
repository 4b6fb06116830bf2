//! The RTP header and command section header of a MIDI packet, read with
//! `Option` results, and the delta times of its commands.
use crate::endian::{be_u32_value, u32_from_be_bytes};
use crate::midi_command::MidiCommand;
use crate::packet::midi_packet::delta_time::{
    lemma_terminator_index, spec_continuation, terminator_index,
    vlq_value,
};
use crate::packet::midi_packet::recovery_journal::recovery_journal::RecoveryJournal;
use crate::delta_time::{lemma_wrapped_vlq_push, shift_in_chunk};
use crate::packet::midi_packet::rtp_fields_ok;
use crate::byte_facts::{lemma_byte_bits, lemma_byte_fields, lemma_join_bytes};
use vstd::prelude::*;

verus! {

#[derive(Debug)]
pub struct MidiPacket {
    pub commands: Vec<(u32, MidiCommand)>,
    pub recovery_journal: Option<RecoveryJournal>,
}

#[derive(Debug, Clone, Copy, PartialEq, Eq, Structural)]
pub struct MidiPacketHeader {
    pub version: u8,
    pub p_flag: bool,
    pub x_flag: bool,
    pub cc: u8,
    pub m_flag: bool,
    pub pt: u8,
    pub timestamp: u32,
    pub ssrc: u32,
    pub b_flag: bool,
    pub j_flag: bool,
    pub z_flag: bool,
    pub p_flag_data: bool,
    pub length: u16,
}

/// The header that the first thirteen or fourteen bytes of `bytes` hold.
pub open spec fn header_of(bytes: Seq<u8>) -> MidiPacketHeader {
    let b12 = bytes[12];
    MidiPacketHeader {
        version: (bytes[0] >> 6) & 0b11,
        p_flag: bytes[0] & 0b0010_0000 != 0,
        x_flag: bytes[0] & 0b0001_0000 != 0,
        cc: bytes[0] & 0b0000_1111,
        m_flag: bytes[1] & 0b1000_0000 != 0,
        pt: bytes[1] & 0b0111_1111,
        timestamp: be_u32_value(bytes.skip(4)) as u32,
        ssrc: be_u32_value(bytes.skip(8)) as u32,
        b_flag: b12 & 0b1000_0000 != 0,
        j_flag: b12 & 0b0100_0000 != 0,
        z_flag: b12 & 0b0010_0000 != 0,
        p_flag_data: b12 & 0b0001_0000 != 0,
        length: (if b12 & 0b1000_0000 != 0 {
            (b12 & 0b0000_1111) * 0x100 + bytes[13]
        } else {
            (b12 & 0b0000_1111) as int
        }) as u16,
    }
}

impl MidiPacketHeader {
    /// Reads the RTP header and the command section header. `None` on fewer
    /// than thirteen bytes, on header fields other than version 2, no padding,
    /// no extension, no CSRC and payload type 0x61, and when B is set but the
    /// fourteenth byte is missing. Returns the header and its length.
    pub fn parse(bytes: &[u8]) -> (r: Option<(Self, usize)>)
        ensures
            match r {
                Some((h, n)) => {
                    &&& bytes@.len() >= 13
                    &&& rtp_fields_ok(bytes@[0], bytes@[1])
                    &&& (bytes@[12] & 0x80 != 0 ==> bytes@.len() >= 14)
                    &&& h == header_of(bytes@)
                    &&& n == if h.b_flag {
                        14nat
                    } else {
                        13nat
                    }
                },
                None => !(bytes@.len() >= 13 && rtp_fields_ok(bytes@[0], bytes@[1]) && (bytes@[12] & 0x80
                    != 0 ==> bytes@.len() >= 14)),
            },
    {
        if bytes.len() < 13 {
            return None;
        }
        let b12 = bytes[12];
        let version = (bytes[0] >> 6) & 0b11;
        let p_flag = (bytes[0] & 0b0010_0000) != 0;
        let x_flag = (bytes[0] & 0b0001_0000) != 0;
        let cc = bytes[0] & 0b0000_1111;
        let m_flag = (bytes[1] & 0b1000_0000) != 0;
        let pt = bytes[1] & 0b0111_1111;
        if version != 2 || p_flag || x_flag || cc != 0 || pt != 0x61 {
            return None;
        }
        let timestamp = u32_from_be_bytes([bytes[4], bytes[5], bytes[6], bytes[7]]);
        let ssrc = u32_from_be_bytes([bytes[8], bytes[9], bytes[10], bytes[11]]);
        assert(seq![bytes@[4], bytes@[5], bytes@[6], bytes@[7]] =~= bytes@.skip(4).take(4));
        assert(seq![bytes@[8], bytes@[9], bytes@[10], bytes@[11]] =~= bytes@.skip(8).take(4));
        let b_flag = (bytes[12] & 0b1000_0000) != 0;
        let j_flag = (bytes[12] & 0b0100_0000) != 0;
        let z_flag = (bytes[12] & 0b0010_0000) != 0;
        let p_flag_data = (bytes[12] & 0b0001_0000) != 0;
        let length = if b_flag {
            let len_high = (bytes[12] & 0b0000_1111) as u16;
            assert(b12 & 0x0F < 0x10) by { lemma_byte_bits(); }
            if bytes.len() < 14 {
                return None;
            }
            let len_low = bytes[13] as u16;
            assert((len_high << 8) | len_low == len_high * 0x100 + len_low) by {
                lemma_join_bytes();
                assert((len_high << 8u16) | len_low == len_high * 0x100 + len_low);
            }
            (len_high << 8) | len_low
        } else {
            (bytes[12] & 0b0000_1111) as u16
        };
        let header_length: usize = if b_flag {
            14
        } else {
            13
        };
        Some((
            Self {
                version,
                p_flag,
                x_flag,
                cc,
                m_flag,
                pt,
                timestamp,
                ssrc,
                b_flag,
                j_flag,
                z_flag,
                p_flag_data,
                length,
            },
            header_length,
        ))
    }
}

impl MidiPacket {
    /// The delta time at the front of `bytes` and its length: up to and
    /// including the first byte whose top bit is clear, which must exist; the
    /// low 32 bits of the time.
    fn parse_delta_time(bytes: &[u8]) -> (r: (u32, usize))
        requires
            terminator_index(bytes@) is Some,
        ensures
            terminator_index(bytes@) == Some((r.1 - 1) as nat),
            r.1 >= 1,
            r.0 == vlq_value(bytes@.take(r.1 as int)) % 0x1_0000_0000,
    {
        let mut delta_time = 0u32;
        let mut i: usize = 0;
        assert(bytes@.take(0) =~= Seq::<u8>::empty());
        loop
            invariant_except_break
                i <= bytes@.len(),
                terminator_index(bytes@) is Some,
                delta_time == vlq_value(bytes@.take(i as int)) % 0x1_0000_0000,
                forall|j: int| 0 <= j < i ==> spec_continuation(#[trigger] bytes@[j]),
            ensures
                i >= 1,
                terminator_index(bytes@) == Some((i - 1) as nat),
                delta_time == vlq_value(bytes@.take(i as int)) % 0x1_0000_0000,
            decreases bytes@.len() - i,
        {
            if i >= bytes.len() {
                proof {
                    lemma_terminator_index(bytes@, i as int);
                }
            }
            let byte = bytes[i];
            let next = shift_in_chunk(delta_time, byte);
            proof {
                lemma_wrapped_vlq_push(bytes@.take(i as int), byte);
                assert(bytes@.take(i as int).push(byte) =~= bytes@.take(i + 1));
            }
            i += 1;
            delta_time = next;
            assert(byte & 0x80 == 0 <==> byte < 0x80) by { lemma_byte_bits(); }
            if byte & 0b1000_0000 == 0 {
                proof {
                    lemma_terminator_index(bytes@, (i - 1) as int);
                }
                break;
            }
        }
        (delta_time, i)
    }
}

/// A header that `MidiPacketHeader::parse` reads holds, as numbers of the
/// bytes: the version in the top two bits of byte 0, P, X and CC below them,
/// M and the payload type in byte 1, the timestamp of bytes 4 to 7 and the
/// SSRC of bytes 8 to 11 (most significant byte first), B, J, Z and P in the
/// top four bits of byte 12, and the length in its low four bits, followed by
/// byte 13 when B is set.
pub proof fn lemma_parse_header_fields(bytes: Seq<u8>, h: MidiPacketHeader)
    requires
        bytes.len() >= 13,
        h == header_of(bytes),
        bytes[12] >= 0x80 ==> bytes.len() >= 14,
    ensures
        h.version == bytes[0] / 64,
        h.p_flag == ((bytes[0] / 32) % 2 == 1),
        h.x_flag == ((bytes[0] / 16) % 2 == 1),
        h.cc == bytes[0] % 16,
        h.m_flag == (bytes[1] >= 128),
        h.pt == bytes[1] % 128,
        h.timestamp == bytes[4] * 0x100_0000 + bytes[5] * 0x1_0000 + bytes[6] * 0x100 + bytes[7],
        h.ssrc == bytes[8] * 0x100_0000 + bytes[9] * 0x1_0000 + bytes[10] * 0x100 + bytes[11],
        h.b_flag == (bytes[12] >= 128),
        h.j_flag == ((bytes[12] / 64) % 2 == 1),
        h.z_flag == ((bytes[12] / 32) % 2 == 1),
        h.p_flag_data == ((bytes[12] / 16) % 2 == 1),
        h.length == if bytes[12] >= 128 {
            (bytes[12] % 16) * 256 + bytes[13]
        } else {
            (bytes[12] % 16) as int
        },
{
    lemma_byte_bits();
    lemma_byte_fields();
    let b0 = bytes[0];
    let b1 = bytes[1];
    let b12 = bytes[12];
    assert((b0 >> 6u8) & 0b11 == b0 / 64);
    assert((b0 & 0x20 != 0) == ((b0 / 32) % 2 == 1));
    assert((b0 & 0x10 != 0) == ((b0 / 16) % 2 == 1));
    assert(b0 & 0x0F == b0 % 0x10);
    assert((b1 & 0x80 != 0) == (b1 >= 0x80));
    assert(b1 & 0x7f == b1 % 0x80);
    assert((b12 & 0x80 != 0) == (b12 >= 0x80));
    assert((b12 & 0x40 != 0) == ((b12 / 64) % 2 == 1));
    assert((b12 & 0x20 != 0) == ((b12 / 32) % 2 == 1));
    assert((b12 & 0x10 != 0) == ((b12 / 16) % 2 == 1));
    assert(b12 & 0x0F == b12 % 0x10);
}

} // verus!
