//! A MIDI packet as one piece: the RTP header with the command section header
//! after it, the timed commands, and the recovery journal when the J flag is set.
pub mod delta_time;
pub mod midi_command;
pub mod midi_timed_command;
pub mod midi_command_list_header;
pub mod midi_command_section;
pub mod midi_packet_header;
pub mod midi_packet;
pub mod recovery_journal;

use crate::endian::{be_u32_value, read_u32_be};
use crate::bits::bits_of;
use crate::midi_command::{from_bytes_in_bounds, spec_command_from_bytes, CommandType, CommandView, MidiCommand};
use recovery_journal::recovery_journal::spec_recovery_journal;
use recovery_journal::recovery_journal::RecoveryJournal;
use crate::byte_facts::{lemma_byte_bits, lemma_byte_fields};
use vstd::prelude::*;

verus! {

#[derive(Debug)]
pub struct MidiPacket {
    pub commands: Vec<MidiCommand>,
    pub recovery_journal: Option<RecoveryJournal>,
}

#[derive(Debug, Clone, Copy, PartialEq, Eq, Structural)]
pub struct MidiPacketHeader {
    pub version: u8,
    pub p_flag: bool,
    pub x_flag: bool,
    pub cc: u8,
    pub m_flag: bool,
    pub pt: u8,
    pub timestamp: u32,
    pub ssrc: u32,
    pub b_flag: bool,
    pub j_flag: bool,
    pub z_flag: bool,
    pub p_flag_data: bool,
    pub length: u16,
}

/// The first two bytes name version 2, no padding, no extension, no CSRC and
/// payload type 0x61.
pub open spec fn rtp_fields_ok(b0: u8, b1: u8) -> bool {
    &&& (b0 >> 6) & 0b11 == 2
    &&& b0 & 0b0010_0000 == 0
    &&& b0 & 0b0001_0000 == 0
    &&& b0 & 0b0000_1111 == 0
    &&& b1 & 0b0111_1111 == 0x61
}

/// The header that the first thirteen or fourteen bytes of `bytes` hold.
pub open spec fn header_of(bytes: Seq<u8>) -> MidiPacketHeader {
    let b12 = bytes[12];
    MidiPacketHeader {
        version: (bytes[0] >> 6) & 0b11,
        p_flag: bytes[0] & 0b0010_0000 != 0,
        x_flag: bytes[0] & 0b0001_0000 != 0,
        cc: bytes[0] & 0b0000_1111,
        m_flag: bytes[1] & 0b1000_0000 != 0,
        pt: bytes[1] & 0b0111_1111,
        timestamp: be_u32_value(bytes.skip(4)) as u32,
        ssrc: be_u32_value(bytes.skip(8)) as u32,
        b_flag: b12 & 0b1000_0000 != 0,
        j_flag: b12 & 0b0100_0000 != 0,
        z_flag: b12 & 0b0010_0000 != 0,
        p_flag_data: b12 & 0b0001_0000 != 0,
        length: (if b12 & 0b1000_0000 != 0 {
            (b12 & 0b0000_1111) * 0x100 + bytes[13]
        } else {
            (b12 & 0b0000_1111) as int
        }) as u16,
    }
}

impl MidiPacketHeader {
    /// Reads the RTP header and the command section header. Fails on fewer than
    /// thirteen bytes and on header fields other than version 2, no padding, no
    /// extension, no CSRC and payload type 0x61. Returns the header and its
    /// length: fourteen bytes with B set, else thirteen.
    pub fn parse(bytes: &[u8]) -> (r: Result<(Self, usize), String>)
        requires
            bytes@.len() >= 13 && rtp_fields_ok(bytes@[0], bytes@[1]) && bytes@[12] & 0x80 != 0
                ==> bytes@.len() >= 14,
        ensures
            bytes@.len() < 13 ==> (r matches Err(e) && e@ == "Not enough data for a valid MIDI packet header"@),
            bytes@.len() >= 13 && !rtp_fields_ok(bytes@[0], bytes@[1]) ==> (r matches Err(e) && e@
                == "Invalid header fields"@),
            bytes@.len() >= 13 && rtp_fields_ok(bytes@[0], bytes@[1]) ==> (r matches Ok((h, n)) && h
                == header_of(bytes@) && n == if h.b_flag {
                14nat
            } else {
                13nat
            }),
    {
        if bytes.len() < 13 {
            return Err("Not enough data for a valid MIDI packet header".to_owned());
        }
        let b0 = bytes[0];
        let b1 = bytes[1];
        let b12 = bytes[12];
        let version = (bytes[0] >> 6) & 0b11;
        let p_flag = (bytes[0] & 0b0010_0000) != 0;
        let x_flag = (bytes[0] & 0b0001_0000) != 0;
        let cc = bytes[0] & 0b0000_1111;
        let m_flag = (bytes[1] & 0b1000_0000) != 0;
        let pt = bytes[1] & 0b0111_1111;
        if version != 2 || p_flag || x_flag || cc != 0 || pt != 0x61 {
            return Err("Invalid header fields".to_owned());
        }
        let timestamp = read_u32_be(&bytes[4..8]);
        let ssrc = read_u32_be(&bytes[8..12]);
        assert(bytes@.subrange(4, 8) =~= bytes@.skip(4).take(4));
        assert(bytes@.subrange(8, 12) =~= bytes@.skip(8).take(4));
        let b_flag = (bytes[12] & 0b1000_0000) != 0;
        let j_flag = (bytes[12] & 0b0100_0000) != 0;
        let z_flag = (bytes[12] & 0b0010_0000) != 0;
        let p_flag_data = (bytes[12] & 0b0001_0000) != 0;
        let length = if b_flag {
            let hi = bytes[12] & 0b0000_1111;
            let lo = bytes[13];
            let v = crate::endian::u16_from_be_bytes([hi, lo]);
            assert(hi < 0x10) by (bit_vector)
                requires
                    hi == b12 & 0x0F,
            ;
            v
        } else {
            (bytes[12] & 0b0000_1111) as u16
        };
        let header_length: usize = if b_flag {
            14
        } else {
            13
        };
        Ok((
            Self {
                version,
                p_flag,
                x_flag,
                cc,
                m_flag,
                pt,
                timestamp,
                ssrc,
                b_flag,
                j_flag,
                z_flag,
                p_flag_data,
                length,
            },
            header_length,
        ))
    }
}

/// What `parse_commands` reads from `bytes` from offset `i` on: commands one
/// after another until `length` bytes are used, each with a delta time unless
/// it is the first and `z_flag` is clear, under the type and channel of the one
/// before; or why it failed.
pub open spec fn spec_parse_commands(
    bytes: Seq<u8>,
    z_flag: bool,
    length: nat,
    i: nat,
    running_status: Option<CommandType>,
    running_channel: Option<u8>,
) -> Result<(Seq<CommandView>, nat), Seq<char>>
    decreases (if i < length { length - i } else { 0 }),
{
    if i >= length {
        Ok((Seq::empty(), i))
    } else if i >= bytes.len() {
        Err("Not enough data for MIDI command"@)
    } else {
        match spec_command_from_bytes(bytes.skip(i as int), i > 0 || z_flag, running_status, running_channel) {
            Ok((v, n)) => if n >= 1 {
                match spec_parse_commands(bytes, z_flag, length, i + n, Some(v.1), Some(v.2)) {
                    Ok((vs, end)) => Ok((seq![v] + vs, end)),
                    Err(m) => Err(m),
                }
            } else {
                Err(Seq::empty())
            },
            Err(m) => Err(m),
        }
    }
}

/// Every command that `parse_commands` reads stays within `bytes`.
pub open spec fn commands_in_bounds(
    bytes: Seq<u8>,
    z_flag: bool,
    length: nat,
    i: nat,
    running_status: Option<CommandType>,
    running_channel: Option<u8>,
) -> bool
    decreases (if i < length { length - i } else { 0 }),
{
    if i >= length || i >= bytes.len() {
        true
    } else {
        &&& from_bytes_in_bounds(bytes.skip(i as int), i > 0 || z_flag, running_status, running_channel)
        &&& match spec_command_from_bytes(bytes.skip(i as int), i > 0 || z_flag, running_status, running_channel) {
            Ok((v, n)) => n >= 1 ==> commands_in_bounds(bytes, z_flag, length, i + n, Some(v.1), Some(v.2)),
            Err(_) => true,
        }
    }
}

/// A command read by `from_bytes` uses at least one byte and no more than there are.
proof fn lemma_command_len(bytes: Seq<u8>, has_delta_time: bool, rs: Option<CommandType>, rc: Option<u8>)
    requires
        from_bytes_in_bounds(bytes, has_delta_time, rs, rc),
    ensures
        spec_command_from_bytes(bytes, has_delta_time, rs, rc) matches Ok((v, n)) ==> 1 <= n <= bytes.len(),
{
}

/// What `MidiPacket::parse` reads when the header and commands read: the
/// commands, and the recovery journal bits that follow them when J is set.
pub open spec fn packet_commands_end(bytes: Seq<u8>) -> Option<(Seq<CommandView>, nat)> {
    let h = header_of(bytes);
    let hl: nat = if h.b_flag { 14 } else { 13 };
    match spec_parse_commands(bytes.skip(hl as int), h.z_flag, h.length as nat, 0, None, None) {
        Ok((vs, end)) => Some((vs, hl + end)),
        Err(_) => None,
    }
}

impl MidiPacket {
    /// Reads the commands of a command section of `length` bytes; see
    /// `spec_parse_commands`.
    fn parse_commands(bytes: &[u8], z_flag: bool, length: u16) -> (r: Result<(Vec<MidiCommand>, usize), String>)
        requires
            commands_in_bounds(bytes@, z_flag, length as nat, 0, None, None),
        ensures
            match spec_parse_commands(bytes@, z_flag, length as nat, 0, None, None) {
                Ok((vs, end)) => r matches Ok((cs, n)) && n == end && n <= bytes@.len() && cs@.len() == vs.len()
                    && forall|k: int| 0 <= k < vs.len() ==> #[trigger] cs@[k].spec_view() == vs[k],
                Err(m) => r matches Err(e) && e@ == m,
            },
    {
        let mut commands: Vec<MidiCommand> = Vec::new();
        let mut i: usize = 0;
        let mut running_status: Option<CommandType> = None;
        let mut running_channel: Option<u8> = None;
        let ghost mut done: Seq<CommandView> = Seq::empty();
        while i < length as usize
            invariant
                i <= bytes@.len(),
                commands@.len() == done.len(),
                forall|k: int| 0 <= k < done.len() ==> #[trigger] commands@[k].spec_view() == done[k],
                commands_in_bounds(bytes@, z_flag, length as nat, i as nat, running_status, running_channel),
                spec_parse_commands(bytes@, z_flag, length as nat, 0, None, None) == match spec_parse_commands(
                    bytes@,
                    z_flag,
                    length as nat,
                    i as nat,
                    running_status,
                    running_channel,
                ) {
                    Ok((vs, end)) => Ok((done + vs, end)),
                    Err(m) => Err(m),
                },
            decreases bytes@.len() - i,
        {
            if i >= bytes.len() {
                return Err("Not enough data for MIDI command".to_owned());
            }
            let has_delta_time = i > 0 || z_flag;
            let rest = &bytes[i..bytes.len()];
            assert(rest@ =~= bytes@.skip(i as int));
            proof {
                lemma_command_len(rest@, has_delta_time, running_status, running_channel);
            }
            match MidiCommand::from_bytes(rest, has_delta_time, running_status, running_channel) {
                Ok((command, command_length)) => {
                    let ghost v = command.spec_view();
                    proof {
                        match spec_parse_commands(bytes@, z_flag, length as nat, (i + command_length) as nat, Some(v.1), Some(v.2)) {
                            Ok((vs, end)) => {
                                assert(done + (seq![v] + vs) =~= done.push(v) + vs);
                            },
                            Err(_) => {},
                        }
                    }
                    running_status = Some(command.command);
                    running_channel = Some(command.channel);
                    i += command_length;
                    commands.push(command);
                    proof {
                        done = done.push(v);
                    }
                },
                Err(e) => {
                    return Err(e);
                },
            }
        }
        assert(done + Seq::<CommandView>::empty() =~= done);
        Ok((commands, i))
    }
}

/// The buffers from which `MidiPacket::parse` reads a packet.
pub open spec fn midi_parse_ok(bytes: Seq<u8>) -> bool {
    &&& bytes.len() >= 13
    &&& rtp_fields_ok(bytes[0], bytes[1])
    &&& {
        let h = header_of(bytes);
        let hl: nat = if h.b_flag { 14 } else { 13 };
        match spec_parse_commands(bytes.skip(hl as int), h.z_flag, h.length as nat, 0, None, None) {
            Err(_) => false,
            Ok((vs, end)) => h.j_flag ==> spec_recovery_journal(bits_of(bytes.skip((hl + end) as int))) is Some,
        }
    }
}

/// The inputs on which `MidiPacket::parse` stays within `bytes`.
pub open spec fn packet_in_bounds(bytes: Seq<u8>) -> bool {
    bytes.len() >= 13 && rtp_fields_ok(bytes[0], bytes[1]) ==> {
        let h = header_of(bytes);
        let hl: nat = if h.b_flag { 14 } else { 13 };
        &&& h.b_flag ==> bytes.len() >= 14
        &&& commands_in_bounds(bytes.skip(hl as int), h.z_flag, h.length as nat, 0, None, None)
    }
}

impl MidiPacket {
    /// Reads a packet: the header, the commands of the section it describes,
    /// and the recovery journal after them when J is set. Fails as any of them
    /// fails.
    pub fn parse(bytes: &[u8]) -> (r: Result<Self, String>)
        requires
            packet_in_bounds(bytes@),
        ensures
            bytes@.len() < 13 ==> (r matches Err(e) && e@ == "Not enough data for a valid MIDI packet header"@),
            bytes@.len() >= 13 && !rtp_fields_ok(bytes@[0], bytes@[1]) ==> (r matches Err(e) && e@
                == "Invalid header fields"@),
            bytes@.len() >= 13 && rtp_fields_ok(bytes@[0], bytes@[1]) ==> ({
                let h = header_of(bytes@);
                let hl: nat = if h.b_flag { 14 } else { 13 };
                match spec_parse_commands(bytes@.skip(hl as int), h.z_flag, h.length as nat, 0, None, None) {
                    Err(m) => r matches Err(e) && e@ == m,
                    Ok((vs, end)) => if h.j_flag {
                        match spec_recovery_journal(bits_of(bytes@.skip((hl + end) as int))) {
                            Some((jv, _)) => r matches Ok(p) && p.commands_match(vs) && (p.recovery_journal matches Some(j) && j.matches(jv)),
                            None => r matches Err(e) && e@ == "Error parsing recovery journal: unexpected end of file"@,
                        }
                    } else {
                        r matches Ok(p) && p.commands_match(vs) && p.recovery_journal is None
                    },
                }
            }),
    {
        let mut i: usize = 0;
        let (header, header_length) = match MidiPacketHeader::parse(bytes) {
            Ok(x) => x,
            Err(e) => return Err(e),
        };
        i += header_length;
        let rest = &bytes[i..bytes.len()];
        assert(rest@ =~= bytes@.skip(i as int));
        let (commands, commands_length) = match Self::parse_commands(rest, header.z_flag, header.length) {
            Ok((commands, length)) => (commands, length),
            Err(e) => {
                return Err(e);
            },
        };
        i += commands_length;
        let recovery_journal = if header.j_flag {
            let tail = &bytes[i..bytes.len()];
            assert(tail@ =~= bytes@.skip(i as int));
            match RecoveryJournal::parse(tail) {
                Ok(journal) => Some(journal),
                Err(_) => {
                    return Err("Error parsing recovery journal: unexpected end of file".to_owned());
                },
            }
        } else {
            None
        };
        Ok(Self { commands, recovery_journal })
    }

    /// The commands are those read, in order.
    pub open spec fn commands_match(&self, vs: Seq<CommandView>) -> bool {
        &&& self.commands@.len() == vs.len()
        &&& forall|k: int| 0 <= k < vs.len() ==> #[trigger] self.commands@[k].spec_view() == vs[k]
    }
}

/// A header that `MidiPacketHeader::parse` reads holds, as numbers of the
/// bytes: the version in the top two bits of byte 0, P, X and CC below them,
/// M and the payload type in byte 1, the timestamp of bytes 4 to 7 and the
/// SSRC of bytes 8 to 11 (most significant byte first), B, J, Z and P in the
/// top four bits of byte 12, and the length in its low four bits, followed by
/// byte 13 when B is set.
pub proof fn lemma_parse_header_fields(bytes: Seq<u8>, h: MidiPacketHeader)
    requires
        bytes.len() >= 13,
        h == header_of(bytes),
        bytes[12] >= 0x80 ==> bytes.len() >= 14,
    ensures
        h.version == bytes[0] / 64,
        h.p_flag == ((bytes[0] / 32) % 2 == 1),
        h.x_flag == ((bytes[0] / 16) % 2 == 1),
        h.cc == bytes[0] % 16,
        h.m_flag == (bytes[1] >= 128),
        h.pt == bytes[1] % 128,
        h.timestamp == bytes[4] * 0x100_0000 + bytes[5] * 0x1_0000 + bytes[6] * 0x100 + bytes[7],
        h.ssrc == bytes[8] * 0x100_0000 + bytes[9] * 0x1_0000 + bytes[10] * 0x100 + bytes[11],
        h.b_flag == (bytes[12] >= 128),
        h.j_flag == ((bytes[12] / 64) % 2 == 1),
        h.z_flag == ((bytes[12] / 32) % 2 == 1),
        h.p_flag_data == ((bytes[12] / 16) % 2 == 1),
        h.length == if bytes[12] >= 128 {
            (bytes[12] % 16) * 256 + bytes[13]
        } else {
            (bytes[12] % 16) as int
        },
{
    lemma_byte_bits();
    lemma_byte_fields();
    let b0 = bytes[0];
    let b1 = bytes[1];
    let b12 = bytes[12];
    assert((b0 >> 6u8) & 0b11 == b0 / 64);
    assert((b0 & 0x20 != 0) == ((b0 / 32) % 2 == 1));
    assert((b0 & 0x10 != 0) == ((b0 / 16) % 2 == 1));
    assert(b0 & 0x0F == b0 % 0x10);
    assert((b1 & 0x80 != 0) == (b1 >= 0x80));
    assert(b1 & 0x7f == b1 % 0x80);
    assert((b12 & 0x80 != 0) == (b12 >= 0x80));
    assert((b12 & 0x40 != 0) == ((b12 / 64) % 2 == 1));
    assert((b12 & 0x20 != 0) == ((b12 / 32) % 2 == 1));
    assert((b12 & 0x10 != 0) == ((b12 / 16) % 2 == 1));
    assert(b12 & 0x0F == b12 % 0x10);
}

} // verus!
