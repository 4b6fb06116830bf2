//! Session control packets: two 0xFF marker bytes, a two-letter command, then
//! a clock synchronisation body or a session initiation body (with a
//! NUL-terminated name for invitations and acceptances).
use super::clock_sync_packet::{clock_sync_bytes, ClockSyncPacket};
use super::session_initiation_packet::{session_body_bytes, session_body_of, SessionInitiationPacketBody};
use crate::buffer::{bytes_contents, bytes_mut_with_capacity, freeze};
use super::clock_sync_packet::lemma_be_u64_prefix;
use crate::endian::{be_u32_value, be_u64_value, u32_be_bytes, u64_be_bytes};
use crate::stream::ByteSink;
use bytes::Bytes;
use vstd::prelude::*;

verus! {

pub const CONTROL_PACKET_MARKER_VALUE: [u8; 2] = [255, 255];

#[derive(Debug)]
pub enum ControlPacket<'a> {
    ClockSync(ClockSyncPacket),
    /// `name` is the session name without its terminating NUL.
    Invitation { body: SessionInitiationPacketBody, name: &'a [u8] },
    Acceptance { body: SessionInitiationPacketBody, name: &'a [u8] },
    Rejection(SessionInitiationPacketBody),
    Termination(SessionInitiationPacketBody),
}

/// `s` is a C string with its NUL: it ends with a zero byte and holds no other.
pub open spec fn is_c_string_with_nul(s: Seq<u8>) -> bool {
    &&& s.len() >= 1
    &&& s.last() == 0
    &&& forall|i: int| 0 <= i < s.len() - 1 ==> s[i] != 0
}

/// The two command letters of a control packet.
pub open spec fn command_is(buffer: Seq<u8>, a: u8, b: u8) -> bool {
    buffer[2] == a && buffer[3] == b
}

/// Why `try_from_bytes` refuses `buffer`, if it does.
pub open spec fn control_packet_error(buffer: Seq<u8>) -> Option<Seq<char>> {
    let rest = buffer.skip(4);
    if buffer.len() < 4 {
        Some("Buffer too short"@)
    } else if !(buffer[0] == 255 && buffer[1] == 255) {
        Some("Invalid control packet marker"@)
    } else if command_is(buffer, 0x43, 0x4B) {
        if rest.len() != 32 {
            Some("Failed to parse ClockSyncPacket"@)
        } else {
            None
        }
    } else if command_is(buffer, 0x49, 0x4E) || command_is(buffer, 0x4F, 0x4B) {
        if rest.len() < 12 {
            Some("Failed to parse SessionInitiationPacketBody"@)
        } else if !is_c_string_with_nul(rest.skip(12)) {
            Some("Failed to parse CStr"@)
        } else {
            None
        }
    } else if command_is(buffer, 0x4E, 0x4F) || command_is(buffer, 0x42, 0x59) {
        if rest.len() != 12 {
            Some("Failed to parse SessionInitiationPacketBody"@)
        } else {
            None
        }
    } else {
        Some("Unknown command type"@)
    }
}

/// `p` is the packet that `buffer` holds, when it is refused for nothing.
pub open spec fn control_packet_of(p: ControlPacket, buffer: Seq<u8>) -> bool {
    let rest = buffer.skip(4);
    match p {
        ControlPacket::ClockSync(c) => {
            &&& command_is(buffer, 0x43, 0x4B)
            &&& c.sender_ssrc == be_u32_value(rest)
            &&& c.count == rest[4]
            &&& c.reserved@ == rest.subrange(5, 8)
            &&& c.timestamps[0] == be_u64_value(rest.skip(8))
            &&& c.timestamps[1] == be_u64_value(rest.skip(16))
            &&& c.timestamps[2] == be_u64_value(rest.skip(24))
        },
        ControlPacket::Invitation { body, name } => {
            &&& command_is(buffer, 0x49, 0x4E)
            &&& body == session_body_of(rest)
            &&& name@ == rest.skip(12).drop_last()
        },
        ControlPacket::Acceptance { body, name } => {
            &&& command_is(buffer, 0x4F, 0x4B)
            &&& body == session_body_of(rest)
            &&& name@ == rest.skip(12).drop_last()
        },
        ControlPacket::Rejection(body) => command_is(buffer, 0x4E, 0x4F) && body == session_body_of(rest),
        ControlPacket::Termination(body) => command_is(buffer, 0x42, 0x59) && body == session_body_of(
            rest,
        ),
    }
}

/// The bytes of a control packet with command letters `a` and `b` and body `body`.
pub open spec fn control_bytes(a: u8, b: u8, body: Seq<u8>) -> Seq<u8> {
    seq![255u8, 255u8, a, b] + body
}

/// The name as a C string: its bytes, then a NUL.
fn c_string_with_nul(name_bytes: &[u8]) -> (r: Result<&[u8], ()>)
    ensures
        match r {
            Ok(n) => is_c_string_with_nul(name_bytes@) && n@ == name_bytes@.drop_last(),
            Err(_) => !is_c_string_with_nul(name_bytes@),
        },
{
    if name_bytes.len() == 0 || name_bytes[name_bytes.len() - 1] != 0 {
        return Err(());
    }
    let mut i: usize = 0;
    while i < name_bytes.len() - 1
        invariant
            1 <= name_bytes@.len(),
            i <= name_bytes@.len() - 1,
            forall|j: int| 0 <= j < i ==> name_bytes@[j] != 0,
        decreases name_bytes@.len() - i,
    {
        if name_bytes[i] == 0 {
            return Err(());
        }
        i = i + 1;
    }
    let n = &name_bytes[0..name_bytes.len() - 1];
    assert(n@ =~= name_bytes@.drop_last());
    Ok(n)
}

impl<'a> ControlPacket<'a> {
    /// Whether `buffer` starts with the two marker bytes.
    pub fn is_control_packet(buffer: &[u8]) -> (r: bool)
        ensures
            r == (buffer@.len() >= 2 && buffer@[0] == 255 && buffer@[1] == 255),
    {
        buffer.len() >= 2 && buffer[0] == CONTROL_PACKET_MARKER_VALUE[0] && buffer[1]
            == CONTROL_PACKET_MARKER_VALUE[1]
    }

    /// Reads a control packet; the error says what was wrong, see
    /// `control_packet_error`.
    pub fn try_from_bytes(buffer: &'a [u8]) -> (r: Result<Self, String>)
        ensures
            match control_packet_error(buffer@) {
                Some(m) => r matches Err(e) && e@ == m,
                None => r matches Ok(p) && control_packet_of(p, buffer@),
            },
    {
        if buffer.len() < 4 {
            return Err("Buffer too short".to_owned());
        }
        if !(buffer[0] == 255 && buffer[1] == 255) {
            return Err("Invalid control packet marker".to_owned());
        }
        let c0 = buffer[2];
        let c1 = buffer[3];
        let remaining = &buffer[4..buffer.len()];
        assert(remaining@ =~= buffer@.skip(4));
        if c0 == 0x43 && c1 == 0x4B {
            match ClockSyncPacket::ref_from_bytes(remaining) {
                Ok(clock_sync) => Ok(ControlPacket::ClockSync(clock_sync)),
                Err(_) => Err("Failed to parse ClockSyncPacket".to_owned()),
            }
        } else if (c0 == 0x49 && c1 == 0x4E) || (c0 == 0x4F && c1 == 0x4B) {
            let (session_body, name_bytes) = match SessionInitiationPacketBody::ref_from_prefix(remaining) {
                Ok(x) => x,
                Err(_) => return Err("Failed to parse SessionInitiationPacketBody".to_owned()),
            };
            let name = match c_string_with_nul(name_bytes) {
                Ok(n) => n,
                Err(_) => return Err("Failed to parse CStr".to_owned()),
            };
            if c0 == 0x49 {
                Ok(ControlPacket::Invitation { body: session_body, name })
            } else {
                Ok(ControlPacket::Acceptance { body: session_body, name })
            }
        } else if (c0 == 0x4E && c1 == 0x4F) || (c0 == 0x42 && c1 == 0x59) {
            let session_body = match SessionInitiationPacketBody::ref_from_bytes(remaining) {
                Ok(b) => b,
                Err(_) => return Err("Failed to parse SessionInitiationPacketBody".to_owned()),
            };
            if c0 == 0x4E {
                Ok(ControlPacket::Rejection(session_body))
            } else {
                Ok(ControlPacket::Termination(session_body))
            }
        } else {
            Err("Unknown command type".to_owned())
        }
    }

    /// The bytes of an invitation: marker, "IN", a body of protocol version 2,
    /// then the name and a NUL.
    pub fn new_invitation_as_bytes(initiator_token: u32, ssrc: u32, name: &[u8]) -> (b: Bytes)
        requires
            forall|i: int| 0 <= i < name@.len() ==> name@[i] != 0,
            name@.len() + 32 <= isize::MAX,
        ensures
            bytes_contents(b) == control_bytes(
                0x49,
                0x4E,
                session_body_bytes(2, initiator_token, ssrc) + name@ + seq![0u8],
            ),
    {
        Self::new_named_as_bytes(0x49, 0x4E, initiator_token, ssrc, name)
    }

    /// The bytes of an acceptance: marker, "OK", a body of protocol version 2,
    /// then the name and a NUL.
    pub fn new_acceptance_as_bytes(initiator_token: u32, ssrc: u32, name: &[u8]) -> (b: Bytes)
        requires
            forall|i: int| 0 <= i < name@.len() ==> name@[i] != 0,
            name@.len() + 32 <= isize::MAX,
        ensures
            bytes_contents(b) == control_bytes(
                0x4F,
                0x4B,
                session_body_bytes(2, initiator_token, ssrc) + name@ + seq![0u8],
            ),
    {
        Self::new_named_as_bytes(0x4F, 0x4B, initiator_token, ssrc, name)
    }

    fn new_named_as_bytes(c0: u8, c1: u8, initiator_token: u32, ssrc: u32, name: &[u8]) -> (b: Bytes)
        requires
            name@.len() + 32 <= isize::MAX,
        ensures
            bytes_contents(b) == control_bytes(
                c0,
                c1,
                session_body_bytes(2, initiator_token, ssrc) + name@ + seq![0u8],
            ),
    {
        let body = SessionInitiationPacketBody::new(initiator_token, ssrc);
        let header = CONTROL_PACKET_MARKER_VALUE;
        let command = [c0, c1];
        let mut packet = bytes_mut_with_capacity(header.len() + command.len() + SessionInitiationPacketBody::SIZE + name.len() + 1);
        packet.put_bytes(header.as_slice());
        packet.put_bytes(command.as_slice());
        body.write(&mut packet);
        packet.put_bytes(name);
        packet.put_byte(0);
        assert(packet.sink_contents() =~= control_bytes(
            c0,
            c1,
            session_body_bytes(2, initiator_token, ssrc) + name@ + seq![0u8],
        ));
        freeze(packet)
    }

    /// The bytes of a rejection: marker, "NO", a body of protocol version 2.
    pub fn new_rejection_as_bytes(initiator_token: u32, ssrc: u32) -> (b: Bytes)
        ensures
            bytes_contents(b) == control_bytes(0x4E, 0x4F, session_body_bytes(2, initiator_token, ssrc)),
    {
        Self::new_unnamed_as_bytes(0x4E, 0x4F, initiator_token, ssrc)
    }

    /// The bytes of a termination: marker, "BY", a body of protocol version 2.
    pub fn new_termination_as_bytes(initiator_token: u32, ssrc: u32) -> (b: Bytes)
        ensures
            bytes_contents(b) == control_bytes(0x42, 0x59, session_body_bytes(2, initiator_token, ssrc)),
    {
        Self::new_unnamed_as_bytes(0x42, 0x59, initiator_token, ssrc)
    }

    fn new_unnamed_as_bytes(c0: u8, c1: u8, initiator_token: u32, ssrc: u32) -> (b: Bytes)
        ensures
            bytes_contents(b) == control_bytes(c0, c1, session_body_bytes(2, initiator_token, ssrc)),
    {
        let body = SessionInitiationPacketBody::new(initiator_token, ssrc);
        let header = CONTROL_PACKET_MARKER_VALUE;
        let command = [c0, c1];
        let mut packet = bytes_mut_with_capacity(header.len() + command.len() + SessionInitiationPacketBody::SIZE);
        packet.put_bytes(header.as_slice());
        packet.put_bytes(command.as_slice());
        body.write(&mut packet);
        assert(packet.sink_contents() =~= control_bytes(c0, c1, session_body_bytes(2, initiator_token, ssrc)));
        freeze(packet)
    }

    /// The bytes of a clock synchronisation packet: marker, "CK", then the body
    /// with the reserved bytes zero.
    pub fn new_clock_sync_as_bytes(count: u8, timestamps: [u64; 3], sender_ssrc: u32) -> (b: Bytes)
        ensures
            bytes_contents(b) == control_bytes(
                0x43,
                0x4B,
                clock_sync_bytes(sender_ssrc, count, seq![0u8, 0u8, 0u8], timestamps@),
            ),
    {
        let clock_sync_packet = ClockSyncPacket::new(count, timestamps, sender_ssrc);
        let header = CONTROL_PACKET_MARKER_VALUE;
        let command = [0x43u8, 0x4Bu8];
        let mut packet = bytes_mut_with_capacity(header.len() + command.len() + ClockSyncPacket::SIZE);
        packet.put_bytes(header.as_slice());
        packet.put_bytes(command.as_slice());
        clock_sync_packet.write(&mut packet);
        assert(packet.sink_contents() =~= control_bytes(
            0x43,
            0x4B,
            clock_sync_bytes(sender_ssrc, count, seq![0u8, 0u8, 0u8], timestamps@),
        ));
        freeze(packet)
    }
}

/// An invitation or acceptance built from a name without NUL bytes reads back
/// as the same kind of packet, with the same body and name.
pub proof fn lemma_named_reads_back(c0: u8, c1: u8, initiator_token: u32, ssrc: u32, name: Seq<u8>)
    requires
        (c0 == 0x49 && c1 == 0x4E) || (c0 == 0x4F && c1 == 0x4B),
        forall|i: int| 0 <= i < name.len() ==> name[i] != 0,
    ensures
        ({
            let bytes = control_bytes(c0, c1, session_body_bytes(2, initiator_token, ssrc) + name + seq![0u8]);
            &&& control_packet_error(bytes) is None
            &&& forall|p: ControlPacket| #[trigger] control_packet_of(p, bytes) ==> match p {
                ControlPacket::Invitation { body, name: n } => c0 == 0x49 && body
                    == SessionInitiationPacketBody::new_spec(initiator_token, ssrc) && n@ == name,
                ControlPacket::Acceptance { body, name: n } => c0 == 0x4F && body
                    == SessionInitiationPacketBody::new_spec(initiator_token, ssrc) && n@ == name,
                _ => false,
            }
        }),
{
    let b = SessionInitiationPacketBody::new_spec(initiator_token, ssrc);
    let tail = name + seq![0u8];
    super::session_initiation_packet::lemma_write_then_read(b, tail);
    let bytes = control_bytes(c0, c1, session_body_bytes(2, initiator_token, ssrc) + tail);
    assert(bytes.skip(4) =~= session_body_bytes(2, initiator_token, ssrc) + tail);
    assert(session_body_bytes(2, initiator_token, ssrc) + name + seq![0u8] =~= session_body_bytes(2, initiator_token, ssrc) + tail);
    assert(tail.drop_last() =~= name);
    assert(tail.last() == 0);
    assert forall|i: int| 0 <= i < tail.len() - 1 implies tail[i] != 0 by {
        assert(tail[i] == name[i]);
    }
}

/// A rejection or termination reads back as the same kind of packet with the
/// same body.
pub proof fn lemma_unnamed_reads_back(c0: u8, c1: u8, initiator_token: u32, ssrc: u32)
    requires
        (c0 == 0x4E && c1 == 0x4F) || (c0 == 0x42 && c1 == 0x59),
    ensures
        ({
            let bytes = control_bytes(c0, c1, session_body_bytes(2, initiator_token, ssrc));
            &&& control_packet_error(bytes) is None
            &&& forall|p: ControlPacket| #[trigger] control_packet_of(p, bytes) ==> match p {
                ControlPacket::Rejection(body) => c0 == 0x4E && body
                    == SessionInitiationPacketBody::new_spec(initiator_token, ssrc),
                ControlPacket::Termination(body) => c0 == 0x42 && body
                    == SessionInitiationPacketBody::new_spec(initiator_token, ssrc),
                _ => false,
            }
        }),
{
    let b = SessionInitiationPacketBody::new_spec(initiator_token, ssrc);
    super::session_initiation_packet::lemma_write_then_read(b, Seq::<u8>::empty());
    let bytes = control_bytes(c0, c1, session_body_bytes(2, initiator_token, ssrc));
    assert(bytes.skip(4) =~= session_body_bytes(2, initiator_token, ssrc) + Seq::<u8>::empty());
}

/// A clock synchronisation packet reads back with the same SSRC, count and
/// timestamps, and the reserved bytes zero.
pub proof fn lemma_clock_sync_reads_back(count: u8, timestamps: Seq<u64>, sender_ssrc: u32)
    requires
        timestamps.len() == 3,
    ensures
        ({
            let bytes = control_bytes(0x43, 0x4B, clock_sync_bytes(sender_ssrc, count, seq![0u8, 0u8, 0u8], timestamps));
            &&& control_packet_error(bytes) is None
            &&& forall|p: ControlPacket| #[trigger] control_packet_of(p, bytes) ==> match p {
                ControlPacket::ClockSync(c) => c.sender_ssrc == sender_ssrc && c.count == count
                    && c.reserved@ == seq![0u8, 0u8, 0u8] && c.timestamps@ == timestamps,
                _ => false,
            }
        }),
{
    let body = clock_sync_bytes(sender_ssrc, count, seq![0u8, 0u8, 0u8], timestamps);
    let bytes = control_bytes(0x43, 0x4B, body);
    assert(bytes.skip(4) =~= body);
    crate::endian::lemma_u32_be_roundtrip(sender_ssrc);
    crate::endian::lemma_u64_be_roundtrip(timestamps[0]);
    crate::endian::lemma_u64_be_roundtrip(timestamps[1]);
    crate::endian::lemma_u64_be_roundtrip(timestamps[2]);
    assert(body.take(4) =~= u32_be_bytes(sender_ssrc));
    assert(be_u32_value(body) == be_u32_value(body.take(4)));
    assert(body.skip(8).take(8) =~= u64_be_bytes(timestamps[0]));
    assert(body.skip(16).take(8) =~= u64_be_bytes(timestamps[1]));
    assert(body.skip(24).take(8) =~= u64_be_bytes(timestamps[2]));
    lemma_be_u64_prefix(body.skip(8));
    lemma_be_u64_prefix(body.skip(16));
    lemma_be_u64_prefix(body.skip(24));
    assert(body.subrange(5, 8) =~= seq![0u8, 0u8, 0u8]);
    assert forall|p: ControlPacket| #[trigger] control_packet_of(p, bytes) implies match p {
        ControlPacket::ClockSync(c) => c.sender_ssrc == sender_ssrc && c.count == count
            && c.reserved@ == seq![0u8, 0u8, 0u8] && c.timestamps@ == timestamps,
        _ => false,
    } by {
        if let ControlPacket::ClockSync(c) = p {
            assert(c.timestamps@ =~= timestamps);
        }
    }
}

} // verus!
