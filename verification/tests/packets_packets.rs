use bytes::BytesMut;
use rtp_midi::packets::control_packets::clock_sync_packet::ClockSyncPacket;
use rtp_midi::packets::control_packets::control_packet::ControlPacket;
use rtp_midi::packets::control_packets::session_initiation_packet::SessionInitiationPacketBody;
use rtp_midi::packets::midi_packets::delta_time::WriteDeltaTimeExt;
use rtp_midi::packets::midi_packets::midi_command::MidiCommand;
use rtp_midi::packets::midi_packets::midi_command_iterator::MidiCommandIterator;
use rtp_midi::packets::midi_packets::midi_packet::MidiPacket;
use rtp_midi::packets::midi_packets::midi_packet_builder::MidiPacketBuilder;
use rtp_midi::packets::midi_packets::midi_packet_zero_alloc::MidiPacketZeroAlloc;
use rtp_midi::packets::midi_packets::midi_timed_command::TimedCommand;
use rtp_midi::packets::packet::RtpMidiPacket;

#[test]
fn test_read_control_packet_0() {
    let buffer = [
        0xF5, 0x19, 0xAE, 0xB9, //sender ssrc
        0x00, //count
        0x00, 0x00, 0x00, //reserved
        0x00, 0x00, 0x00, 0x00, 0x72, 0xD4, 0xC5, 0x8E, // timestamp 1
        0x00, 0x00, 0x00, 0x00, 0x00, 0x00, 0x00, 0x00, // timestamp 2
        0x00, 0x00, 0x00, 0x00, 0x00, 0x00, 0x00, 0x00, // timestamp 3
    ];

    let result = ClockSyncPacket::ref_from_bytes(&buffer);
    match result {
        Ok(packet) => {
            assert_eq!(packet.sender_ssrc, 4112101049);
            assert_eq!(packet.count, 0);
            assert_eq!(packet.timestamps[0], 1926546830);
        }
        Err(e) => panic!("Failed to read ClockSync packet: {:?}", e),
    };
}

#[test]
fn test_read_control_packet_2() {
    let buffer = [
        0xF5, 0x19, 0xAE, 0xB9, //sender ssrc
        0x02, //count
        0x00, 0x00, 0x00, //reserved
        0x00, 0x00, 0x00, 0x00, 0x00, 0x00, 0x00, 0x72, // timestamp 1
        0x00, 0x00, 0x00, 0x00, 0x04, 0x3D, 0xC7, 0xDF, // timestamp 2
        0x00, 0x00, 0x00, 0x00, 0x72, 0xD4, 0xC5, 0xCD, // timestamp 3
    ];

    let result = ClockSyncPacket::ref_from_bytes(&buffer);
    match result {
        Ok(packet) => {
            assert_eq!(packet.count, 2);
            assert_eq!(packet.sender_ssrc, 4112101049);
            assert_eq!(packet.timestamps[0], 114);
            assert_eq!(packet.timestamps[1], 71157727);
            assert_eq!(packet.timestamps[2], 1926546893);
        }
        Err(e) => panic!("Failed to read ClockSync packet: {:?}", e),
    };
}

#[test]
fn test_parse_invalid_control_packet() {
    let data = vec![0, 0, 0, 0];
    let result = ControlPacket::try_from_bytes(&data);
    assert!(result.is_err());
}

#[test]
fn test_parse_too_short_control_packet() {
    let data = vec![255, 255, 67];
    let result = ControlPacket::try_from_bytes(&data);
    assert!(result.is_err());
}

#[test]
fn test_is_control_packet() {
    let valid_packet = vec![255, 255, 67, 75];
    let invalid_packet = vec![0, 0, 0, 0];
    assert!(ControlPacket::is_control_packet(&valid_packet));
    assert!(!ControlPacket::is_control_packet(&invalid_packet));
}

#[test]
fn test_parse_unknown_control_packet() {
    let data = vec![255, 255, 0, 0];
    let result = ControlPacket::try_from_bytes(&data);
    assert!(result.is_err());
}

#[test]
fn test_read_clock_sync_packet_2() {
    let buffer = [
        0xFF, 0xFF, b'C', b'K', //header
        0xF5, 0x19, 0xAE, 0xB9, //sender ssrc
        0x02, //count
        0x00, 0x00, 0x00, //reserved
        0x00, 0x00, 0x00, 0x00, 0x00, 0x00, 0x00, 0x01, // timestamp 1
        0x00, 0x00, 0x00, 0x00, 0x00, 0x00, 0x00, 0x02, // timestamp 2
        0x00, 0x00, 0x00, 0x00, 0x00, 0x00, 0x00, 0x03, // timestamp 3
    ];

    let result = ControlPacket::try_from_bytes(&buffer);
    if let Err(e) = &result {
        panic!("Failed to parse control packet: {}", e);
    }
    assert!(result.is_ok());
    if let ControlPacket::ClockSync(packet) = &result.unwrap() {
        assert_eq!(packet.count, 2);
        assert_eq!(packet.sender_ssrc, 4112101049);
        assert_eq!(packet.timestamps[0], 1);
        assert_eq!(packet.timestamps[1], 2);
        assert_eq!(packet.timestamps[2], 3);
    } else {
        panic!("Expected ClockSync packet");
    }
}

#[test]
fn test_read_session_initiation_packet() {
    let buffer = [
        0xFF, 0xFF, b'I', b'N', //header
        0x00, 0x00, 0x00, 0x02, //version
        0xF8, 0xD1, 0x80, 0xE6, //initiator token
        0xF5, 0x19, 0xAE, 0xB9, //sender ssrc
        0x4C, 0x6F, 0x76, 0x65, 0x6C, 0x79, 0x20, 0x53, 0x65, 0x73, 0x73, 0x69, 0x6F, 0x6E, 0x00, //name
    ];

    let result = ControlPacket::try_from_bytes(&buffer);
    if let Err(e) = &result {
        panic!("Failed to parse control packet: {}", e);
    }

    assert!(result.is_ok());
    if let ControlPacket::Invitation { body: _body, name } = &result.unwrap() {
        assert_eq!(*name, b"Lovely Session");
    } else {
        panic!("Expected Invitation packet");
    }
}

fn get_test_body() -> [u8; 12] {
    [
        0x00, 0x00, 0x00, 0x02, //version
        0xF8, 0xD1, 0x80, 0xE6, //initiator token
        0xF5, 0x19, 0xAE, 0xB9, //sender ssrc
    ]
}

#[test]
fn test_read_body() {
    let body = get_test_body();
    let result = SessionInitiationPacketBody::ref_from_bytes(&body);
    match result {
        Ok(body) => {
            assert_eq!(body.protocol_version, 2);
            assert_eq!(body.initiator_token, 0xF8D180E6);
            assert_eq!(body.sender_ssrc, 0xF519AEB9);
        }
        Err(e) => panic!("Failed to read body: {:?}", e),
    }
}

#[test]
fn test_write() {
    let packet = SessionInitiationPacketBody::new(0xF8D180E6, 0xF519AEB9);
    let mut bytes: Vec<u8> = Vec::new();
    packet.write(&mut bytes);

    assert_eq!(bytes.len(), 12);
    assert_eq!(&bytes[0..12], &get_test_body()[0..12]);
}

#[test]
fn control_packets_built_read_back() {
    let inv = ControlPacket::new_invitation_as_bytes(7, 9, b"Studio");
    match ControlPacket::try_from_bytes(&inv).unwrap() {
        ControlPacket::Invitation { body, name } => {
            assert_eq!(body.initiator_token, 7);
            assert_eq!(body.sender_ssrc, 9);
            assert_eq!(body.protocol_version, 2);
            assert_eq!(name, b"Studio");
        }
        _ => panic!("Expected Invitation packet"),
    }
    let acc = ControlPacket::new_acceptance_as_bytes(1, 2, b"");
    assert!(matches!(ControlPacket::try_from_bytes(&acc).unwrap(), ControlPacket::Acceptance { .. }));
    let rej = ControlPacket::new_rejection_as_bytes(3, 4);
    assert!(matches!(ControlPacket::try_from_bytes(&rej).unwrap(), ControlPacket::Rejection(_)));
    let end = ControlPacket::new_termination_as_bytes(5, 6);
    assert_eq!(end.len(), 16);
    assert!(matches!(ControlPacket::try_from_bytes(&end).unwrap(), ControlPacket::Termination(_)));
    let ck = ControlPacket::new_clock_sync_as_bytes(1, [10, 20, 30], 99);
    assert_eq!(ck.len(), 36);
    match ControlPacket::try_from_bytes(&ck).unwrap() {
        ControlPacket::ClockSync(p) => {
            assert_eq!((p.count, p.sender_ssrc, p.timestamps), (1, 99, [10, 20, 30]));
        }
        _ => panic!("Expected ClockSync packet"),
    }
    // An invitation whose name is not terminated is refused.
    let mut open = inv.to_vec();
    open.pop();
    assert!(ControlPacket::try_from_bytes(&open).is_err());
}

#[test]
fn test_midi_command_iterator() {
    let data = &[70, 145, 65, 0, 11, 62, 0, 32, 126, 37, 8, 12, 8, 131, 136, 62, 83, 193, 93, 197, 83, 144];
    let mut iterator = MidiCommandIterator::new(data);
    let mut events = Vec::new();
    while let Some(event) = iterator.next() {
        events.push(event);
    }
    assert_eq!(events.len(), 2);
    assert_eq!(events[0].delta_time(), 0);
    assert_eq!(events[1].delta_time(), 11);

    let MidiCommand::NoteOn { channel, key, velocity } = events[0].command() else {
        panic!("Unexpected MIDI command")
    };
    assert_eq!(*channel, 1);
    assert_eq!(*key, 65);
    assert_eq!(*velocity, 0);

    let MidiCommand::NoteOn { channel, key, velocity } = events[1].command() else {
        panic!("Unexpected MIDI command")
    };
    assert_eq!(*channel, 1);
    assert_eq!(*key, 62);
    assert_eq!(*velocity, 0);
}

#[test]
fn midi_packet_builder_test_midi_packet() {
    let sequence_number = 1;
    let timestamp = 1234567890;
    let ssrc = 987654321;

    let command = MidiCommand::NoteOn { key: 60, velocity: 127, channel: 0 };
    let timed_command = TimedCommand::new(None, command);
    let timed_comands = &[timed_command];

    let packet = MidiPacketBuilder::new_as_bytes(sequence_number, timestamp, ssrc, timed_comands);
    let parsed_packet = MidiPacketZeroAlloc::new(&packet).expect("Failed to parse MIDI packet");

    assert_eq!(sequence_number, parsed_packet.sequence_number());
    assert_eq!(timestamp, parsed_packet.timestamp());
    let mut iterator = parsed_packet.commands();
    let mut parsed_commands = Vec::new();
    while let Some(event) = iterator.next() {
        parsed_commands.push(event);
    }
    assert_eq!(timed_comands.len(), parsed_commands.len());
    assert_eq!(timed_comands.first().unwrap().command(), &parsed_commands.first().unwrap().command().to_owned());
    assert_eq!(timed_comands.first().unwrap().delta_time(), parsed_commands.first().unwrap().delta_time());
}

#[test]
fn test_midi_packet_creation() {
    let commands = vec![
        TimedCommand::new(None, MidiCommand::NoteOn { channel: 0, key: 0x48, velocity: 127 }),
        TimedCommand::new(None, MidiCommand::NoteOff { channel: 0, key: 0x48, velocity: 0 }),
    ];
    let z_flag = false;

    let packet = MidiPacket::new_as_bytes(1, 2, 3, &commands, z_flag);

    let expected = [
        0x80, 0x61, // flags
        0x00, 0x01, // sequence number
        0x00, 0x00, 0x00, 0x02, // timestamp
        0x00, 0x00, 0x00, 0x03, // ssrc
        0x07, // command list flags and length
        0x90, 0x48, 0x7F, // first command
        0x00, // delta time
        0x80, 0x48, 0x00, // second command
    ];

    assert_eq!(packet.len(), expected.len());
    assert_eq!(&packet[..], &expected);
}

#[test]
fn test_parse_midi_packet() {
    let commands = vec![TimedCommand::new(None, MidiCommand::NoteOn { channel: 0, key: 0x48, velocity: 127 })];
    let packet = MidiPacket::new_as_bytes(1, 2, 3, &commands, false);

    let parsed_packet = RtpMidiPacket::parse(&packet).unwrap();
    if let RtpMidiPacket::Midi(parsed_midi_packet) = parsed_packet {
        assert_eq!(parsed_midi_packet.sequence_number(), 1);
        assert_eq!(parsed_midi_packet.timestamp(), 2);
        assert_eq!(parsed_midi_packet.ssrc(), 3);
        let mut it = parsed_midi_packet.commands();
        let mut values = Vec::new();
        while let Some(v) = it.next() {
            values.push(v);
        }
        assert_eq!(values.len(), 1);
        assert_eq!(values[0].command().to_owned(), MidiCommand::NoteOn { channel: 0, key: 0x48, velocity: 127 });
    } else {
        panic!("Expected MidiPacket");
    }
}

#[test]
fn test_timed_command_write() {
    let mut expected_bytes = BytesMut::with_capacity(10);

    let delta_time = 0x123456;
    expected_bytes.write_delta_time(delta_time).unwrap();
    let command = MidiCommand::NoteOn { channel: 7, key: 0x40, velocity: 0x7F };
    command.write(&mut expected_bytes, None).unwrap();

    let timed_command = TimedCommand::new(Some(delta_time), command.clone());

    let mut bytes = BytesMut::with_capacity(10);
    timed_command.write(&mut bytes, None, true);

    assert_eq!(bytes[..], expected_bytes[..]);
}

#[test]
fn test_timed_command_write_without_delta_time() {
    let mut expected_bytes = BytesMut::with_capacity(10);

    let command = MidiCommand::NoteOn { channel: 7, key: 0x40, velocity: 0x7F };
    command.write(&mut expected_bytes, None).unwrap();

    let timed_command = TimedCommand::new(None, command.clone());

    let mut bytes = BytesMut::with_capacity(10);
    timed_command.write(&mut bytes, None, false);

    assert_eq!(bytes[..], expected_bytes[..]);
}

#[test]
fn test_timed_command_write_with_zero_delta_time() {
    let mut expected_bytes = BytesMut::with_capacity(10);

    let delta_time = 0;
    expected_bytes.write_delta_time(delta_time).unwrap();

    let command = MidiCommand::NoteOn { channel: 7, key: 0x40, velocity: 0x7F };
    command.write(&mut expected_bytes, None).unwrap();

    let timed_command = TimedCommand::new(None, command.clone());

    let mut bytes = BytesMut::with_capacity(10);
    timed_command.write(&mut bytes, None, true);

    assert_eq!(bytes[..], expected_bytes[..]);
}
