use rtp_midi::packet::control_packets::clock_sync_packet::ClockSyncPacket;
use rtp_midi::packet::control_packets::control_packet::ControlPacket;
use rtp_midi::packet::control_packets::session_initiation_packet::{
    SessionInitiationPacket, SessionInitiationPacketBody,
};
use rtp_midi::packet::session_initiation_packet::SessionInitiationPacket as InitiationPacket;
use rtp_midi::stream::ByteReader;

#[test]
fn test_parse_control_packet_0() {
    let buffer = [
        0xFF, 0xFF, 0x43, 0x4B, //header
        0xF5, 0x19, 0xAE, 0xB9, //sender ssrc
        0x00, //count
        0x00, 0x00, 0x00, //reserved
        0x00, 0x00, 0x00, 0x00, 0x72, 0xD4, 0xC5, 0x8E, // timestamp 1
        0x00, 0x00, 0x00, 0x00, 0x00, 0x00, 0x00, 0x00, // timestamp 2
        0x00, 0x00, 0x00, 0x00, 0x00, 0x00, 0x00, 0x00, // timestamp 3
    ];

    let result = ControlPacket::parse(&buffer);
    assert!(result.is_ok());
    if let ControlPacket::ClockSync(packet) = result.unwrap() {
        assert_eq!(packet.count, 0);
        assert_eq!(packet.sender_ssrc, 4112101049);
        assert_eq!(packet.timestamps[0], 1926546830);
    } else {
        panic!("Expected ClockSync packet");
    }
}

#[test]
fn test_parse_control_packet_2() {
    let buffer = [
        0xFF, 0xFF, 0x43, 0x4B, //header
        0xF5, 0x19, 0xAE, 0xB9, //sender ssrc
        0x02, //count
        0x00, 0x00, 0x00, //reserved
        0x00, 0x00, 0x00, 0x00, 0x00, 0x00, 0x00, 0x72, // timestamp 1
        0x00, 0x00, 0x00, 0x00, 0x04, 0x3D, 0xC7, 0xDF, // timestamp 2
        0x00, 0x00, 0x00, 0x00, 0x72, 0xD4, 0xC5, 0xCD, // timestamp 3
    ];
    let result = ControlPacket::parse(&buffer);
    assert!(result.is_ok());
    if let ControlPacket::ClockSync(packet) = result.unwrap() {
        assert_eq!(packet.count, 2);
        assert_eq!(packet.sender_ssrc, 4112101049);
        assert_eq!(packet.timestamps[0], 114);
        assert_eq!(packet.timestamps[1], 71157727);
        assert_eq!(packet.timestamps[2], 1926546893);
    } else {
        panic!("Expected ClockSync packet");
    }
}

#[test]
fn clock_sync_write_then_read() {
    let packet = ClockSyncPacket::new(1, [5, 6, 7], 0xDEADBEEF);
    let mut bytes: Vec<u8> = Vec::new();
    assert_eq!(packet.write(&mut bytes).unwrap(), 36);
    assert_eq!(&bytes[..4], &[0xFF, 0xFF, 0x43, 0x4B]);
    assert!(ControlPacket::is_control_packet(&bytes));
    let mut reader = ByteReader::new(bytes[4..].to_vec());
    let back = ClockSyncPacket::read(&mut reader).unwrap();
    assert_eq!((back.count, back.timestamps, back.sender_ssrc), (1, [5, 6, 7], 0xDEADBEEF));
    assert!(ControlPacket::parse(&[0xFF, 0xFF, 0x43]).is_err());
    assert!(!ControlPacket::is_control_packet(&[0x80, 0x61, 0, 0]));
}

#[test]
fn session_initiation_write_then_read() {
    let packet = SessionInitiationPacket::new_acknowledgment(0x01020304, 0xAABBCCDD, String::from("Lovely Session"));
    let mut bytes: Vec<u8> = Vec::new();
    packet.write(&mut bytes).unwrap();
    assert_eq!(bytes.len(), 4 + 12 + 14 + 1);
    assert_eq!(&bytes[..4], &[0xFF, 0xFF, 0x4F, 0x4B]);
    assert_eq!(&bytes[4..8], &[0, 0, 0, 2]);
    assert_eq!(bytes[bytes.len() - 1], 0);
    let mut reader = ByteReader::new(bytes[4..].to_vec());
    match SessionInitiationPacket::read(&mut reader, &bytes[2..4]).unwrap() {
        SessionInitiationPacket::Acknowledgment(body) => {
            assert_eq!(body.protocol_version, 2);
            assert_eq!(body.initiator_token, 0x01020304);
            assert_eq!(body.sender_ssrc, 0xAABBCCDD);
            assert_eq!(body.name.as_deref(), Some("Lovely Session"));
        }
        _ => panic!("Expected Acknowledgment packet"),
    }
    match ControlPacket::parse(&bytes).unwrap() {
        ControlPacket::SessionInitiation(SessionInitiationPacket::Acknowledgment(body)) => {
            assert_eq!(body.name.as_deref(), Some("Lovely Session"));
        }
        _ => panic!("Expected session initiation packet"),
    }
}

#[test]
fn session_initiation_body_without_name() {
    let body = SessionInitiationPacketBody { protocol_version: 2, initiator_token: 7, sender_ssrc: 9, name: None };
    let mut bytes: Vec<u8> = Vec::new();
    assert_eq!(body.write(&mut bytes).unwrap(), 16);
    assert_eq!(bytes, vec![0, 0, 0, 2, 0, 0, 0, 7, 0, 0, 0, 9]);
    let mut reader = ByteReader::new(bytes);
    let back = SessionInitiationPacketBody::read(&mut reader).unwrap();
    assert_eq!((back.protocol_version, back.initiator_token, back.sender_ssrc), (2, 7, 9));
    assert!(back.name.is_none());
    let mut short = ByteReader::new(vec![0, 0, 0, 2, 0, 0]);
    assert!(SessionInitiationPacketBody::read(&mut short).is_err());
    let mut unknown = ByteReader::new(vec![0, 0, 0, 2, 0, 0, 0, 7, 0, 0, 0, 9]);
    assert!(SessionInitiationPacket::read(&mut unknown, &[0x58, 0x58]).is_err());
}

#[test]
fn initiation_packet_write_then_parse() {
    let packet = InitiationPacket {
        command: [0x49, 0x4E],
        protocol_version: 2,
        initiator_token: 0xF8D180E6,
        sender_ssrc: 0xF519AEB9,
        name: Some(String::from("Lovely Session")),
    };
    let mut buffer = [0xAAu8; 64];
    let n = packet.write_to_bytes(&mut buffer).unwrap();
    assert_eq!(n, 16 + 14 + 1);
    assert_eq!(&buffer[..4], &[0xFF, 0xFF, 0x49, 0x4E]);
    assert_eq!(buffer[n - 1], 0);
    assert_eq!(buffer[n], 0xAA);
    let back = InitiationPacket::parse(&buffer).unwrap();
    assert_eq!(back.command, [0x49, 0x4E]);
    assert_eq!((back.protocol_version, back.initiator_token, back.sender_ssrc), (2, 0xF8D180E6, 0xF519AEB9));
    assert_eq!(back.name.as_deref(), Some("Lovely Session"));
    let mut small = [0u8; 20];
    assert!(packet.write_to_bytes(&mut small).is_err());
    assert_eq!(small, [0u8; 20]);
    assert!(InitiationPacket::parse(&buffer[..15]).is_err());
    let unnamed = InitiationPacket::parse(&buffer[..16]).unwrap();
    assert!(unnamed.name.is_none());
}
