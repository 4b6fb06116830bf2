use rtp_midi::packet::midi_packet::delta_time::DeltaTime;
use rtp_midi::packet::midi_packet::midi_command::MidiCommand;
use rtp_midi::packet::midi_packet::midi_packet::MidiPacket;
use rtp_midi::packet::midi_packet::midi_timed_command::TimedCommand;
use rtp_midi::packet::midi_packets::delta_time::DeltaTime as StreamDeltaTime;
use rtp_midi::packet::midi_packets::midi_packet::MidiPacket as StreamMidiPacket;
use rtp_midi::packet::midi_packets::midi_timed_command::TimedCommand as StreamTimedCommand;
use rtp_midi::io::ErrorKind;
use rtp_midi::packets::midi_packets::midi_command::MidiCommand as PacketsMidiCommand;
use rtp_midi::packets::midi_packets::midi_timed_command::TimedCommand as PacketsTimedCommand;
use rtp_midi::stream::ByteReader;

#[test]
fn test_delta_time_one_byte() {
    let delta_time = DeltaTime::new(0b0000_1111);
    assert_eq!(delta_time.time(), 0b0000_1111);
    assert_eq!(delta_time.size(), 1);

    let mut bytes = [0; 1];
    delta_time.write_to_bytes(&mut bytes).unwrap();
    assert_eq!(bytes, [0b0000_1111]);
}

#[test]
fn test_delta_time_two_bytes() {
    let delta_time = DeltaTime::new(0b1111_1111);
    assert_eq!(delta_time.time(), 0b1111_1111);
    assert_eq!(delta_time.size(), 2);

    let mut bytes = [0; 2];
    delta_time.write_to_bytes(&mut bytes).unwrap();
    assert_eq!(bytes, [0b1000_0001, 0b0111_1111]);
}

#[test]
fn test_delta_time_three_bytes() {
    let delta_time = DeltaTime::new(0b1111_1111_1111_1111);
    assert_eq!(delta_time.time(), 0b1111_1111_1111_1111);
    assert_eq!(delta_time.size(), 3);

    let mut bytes = [0; 3];
    delta_time.write_to_bytes(&mut bytes).unwrap();
    assert_eq!(bytes, [0b1000_0011, 0b1111_1111, 0b0111_1111]);
}

#[test]
fn test_delta_time_four_bytes() {
    let delta_time = DeltaTime::new(0b0011_1111_1111_1111_1111_1111);
    assert_eq!(delta_time.time(), 0b0011_1111_1111_1111_1111_1111);
    assert_eq!(delta_time.size(), 4);

    let mut bytes = [0; 4];
    delta_time.write_to_bytes(&mut bytes).unwrap();
    assert_eq!(bytes, [0b1000_0001, 0b1111_1111, 0b1111_1111, 0b0111_1111]);
}

#[test]
fn test_delta_time_from_bytes() {
    let bytes: [u8; 4] = [0b1000_0001, 0b1111_1111, 0b1111_1111, 0b0111_1111];
    let delta_time = DeltaTime::from_be_bytes(&bytes).unwrap();
    assert_eq!(delta_time.size(), 4);
    match delta_time {
        DeltaTime::FourByte(arr) => {
            assert_eq!(arr, [0b1000_0001, 0b1111_1111, 0b1111_1111, 0b0111_1111]);
        }
        _ => panic!("Expected Four bytes"),
    }
    assert_eq!(delta_time.time(), 0b0011_1111_1111_1111_1111_1111)
}

#[test]
fn delta_time_errors_and_byte_length() {
    assert_eq!(DeltaTime::from_be_bytes(&[]).unwrap_err().kind(), ErrorKind::UnexpectedEof);
    assert_eq!(DeltaTime::from_be_bytes(&[0x80, 0x80]).unwrap_err().kind(), ErrorKind::InvalidData);
    assert_eq!(
        DeltaTime::from_be_bytes(&[0x80, 0x80, 0x80, 0x80, 0x00]).unwrap_err().kind(),
        ErrorKind::InvalidData
    );
    assert_eq!(DeltaTime::delta_time_byte_length(&[0x81, 0x00, 0x80]).unwrap(), 2);
    let mut small = [7u8; 1];
    assert_eq!(DeltaTime::new(200).write_to_bytes(&mut small).unwrap_err().kind(), ErrorKind::WriteZero);
    assert_eq!(small, [7]);
    assert_eq!(DeltaTime::zero().time(), 0);
}

#[test]
fn delta_time_new_then_read_back() {
    for t in [0u32, 1, 0x7F, 0x80, 0x3FFF, 0x4000, 0x1F_FFFF, 0x20_0000, 0x0FFF_FFFF, 0x123456] {
        let d = DeltaTime::new(t);
        let mut buf = [0xAAu8; 6];
        let n = d.write_to_bytes(&mut buf).unwrap();
        let back = DeltaTime::from_be_bytes(&buf).unwrap();
        assert_eq!(back, d);
        assert_eq!(back.size(), n);
        assert_eq!(back.time(), t);
    }
}

#[test]
fn midi_command_test_midi_command() {
    let command = MidiCommand::NoteOn {
        channel: 7,
        key: 0x40,
        velocity: 0x7F,
    };
    assert_eq!(command.channel(), 7);
    assert_eq!(command.status(), 0x97);
    assert_eq!(command.size(), 2);
    if let MidiCommand::NoteOn { key, velocity, .. } = command {
        assert_eq!(key, 0x40);
        assert_eq!(velocity, 0x7F);
    } else {
        panic!("Not a NoteOn command");
    }
    packets_test_midi_command();
}

fn packets_test_midi_command() {
    let command = PacketsMidiCommand::NoteOn {
        channel: 7,
        key: 0x40,
        velocity: 0x7F,
    };
    assert_eq!(command.status(), 0x97);
    assert_eq!(command.size(), 2);
    if let PacketsMidiCommand::NoteOn { key, velocity, channel } = command {
        assert_eq!(channel, 7);
        assert_eq!(key, 0x40);
        assert_eq!(velocity, 0x7F);
    } else {
        panic!("Not a NoteOn command");
    }
}

#[test]
fn test_midi_command_from_bytes_with_status_byte() {
    let bytes: [u8; 4] = [0x94, 0x40, 0x7F, 0x00];
    let (command, bytes_read) = MidiCommand::from_be_bytes(&bytes, None).unwrap();
    assert_eq!(command.status(), 0x94);
    if let MidiCommand::NoteOn { key, velocity, .. } = command {
        assert_eq!(key, 0x40);
        assert_eq!(velocity, 0x7F);
    } else {
        panic!("Not a NoteOn command");
    }
    assert_eq!(bytes_read, 3);
}

#[test]
fn midi_command_test_midi_command_from_bytes_without_status_byte() {
    let bytes: [u8; 3] = [0x40, 0x7F, 0x00];
    let running_status = Some(0x94);
    let (command, bytes_read) = MidiCommand::from_be_bytes(&bytes, running_status).unwrap();
    assert_eq!(command.status(), 0x94);
    if let MidiCommand::NoteOn { key, velocity, .. } = command {
        assert_eq!(key, 0x40);
        assert_eq!(velocity, 0x7F);
    } else {
        panic!("Not a NoteOn command");
    }
    assert_eq!(bytes_read, 2);
    packets_test_midi_command_from_bytes_without_status_byte();
}

#[test]
fn test_midi_command_write_to_bytes() {
    let command = MidiCommand::NoteOn {
        channel: 4,
        key: 0x40,
        velocity: 0x7F,
    };
    let mut bytes = [0u8; 4];
    let bytes_written = command.write_to_bytes(&mut bytes, None).unwrap();
    assert_eq!(bytes_written, 3);
    assert_eq!(bytes[..3], [0x94, 0x40, 0x7F]);
}

#[test]
fn midi_command_test_serialize_and_deserialize() {
    let original_command = MidiCommand::NoteOn {
        channel: 4,
        key: 0x40,
        velocity: 0x7F,
    };
    let mut bytes = [0u8; 4];
    let bytes_written = original_command.write_to_bytes(&mut bytes, None).unwrap();
    let (deserialized_command, bytes_read) =
        MidiCommand::from_be_bytes(&bytes[..bytes_written], None).unwrap();
    assert_eq!(original_command, deserialized_command);
    assert_eq!(bytes_written, bytes_read);
    packets_test_serialize_and_deserialize();
}

#[test]
fn midi_command_running_status_and_errors() {
    let cmd = MidiCommand::ProgramChange { channel: 2, program: 5 };
    let mut bytes = [0u8; 3];
    assert_eq!(cmd.write_to_bytes(&mut bytes, Some(0xC2)).unwrap(), 1);
    assert_eq!(bytes[0], 5);
    let (back, n) = MidiCommand::from_be_bytes(&bytes, Some(0xC2)).unwrap();
    assert_eq!((back, n), (cmd, 1));
    assert_eq!(MidiCommand::from_be_bytes(&[0x40, 0x00], None).unwrap_err().kind(), ErrorKind::InvalidData);
    assert_eq!(MidiCommand::from_be_bytes(&[0xF8, 0x00], None).unwrap_err().kind(), ErrorKind::InvalidData);
    let pb = MidiCommand::PitchBend { channel: 15, lsb: 1, msb: 2 };
    assert_eq!(pb.status(), 0xEF);
    let (back, n) = MidiCommand::from_be_bytes(&[0xEF, 1, 2], None).unwrap();
    assert_eq!((back, n), (pb, 3));
    // A channel above fifteen keeps only its low four bits in the status byte.
    let wide = MidiCommand::NoteOff { channel: 0x13, key: 1, velocity: 2 };
    assert_eq!(wide.status(), 0x83);
}

#[test]
fn midi_timed_command_test_timed_command() {
    let delta_time = DeltaTime::new(0x123456);
    let command = MidiCommand::NoteOn { channel: 7, key: 0x40, velocity: 0x7F };
    let timed_command = TimedCommand::new(Some(delta_time.clone()), command.clone());

    assert_eq!(timed_command.delta_time().unwrap(), &delta_time);
    assert_eq!(timed_command.command(), &command);
    packets_test_timed_command();
}

#[test]
fn test_timed_command_from_bytes_with_delta_time() {
    let bytes: [u8; 5] = [0x00, 0x90, 0x40, 0x7F, 0x00];

    let delta_time = DeltaTime::from_be_bytes(&bytes[0..1]).unwrap();
    let (command, _command_bytes_read) = MidiCommand::from_be_bytes(&bytes[1..], None).unwrap();

    let (timed_command, timed_bytes_read) = TimedCommand::from_be_bytes(&bytes, None, true).unwrap();

    assert_eq!(timed_command.command(), &command);
    assert_eq!(timed_command.delta_time(), Some(&delta_time));
    assert_eq!(timed_bytes_read, 4);
}

#[test]
fn test_timed_command_from_bytes_without_delta_time() {
    let bytes: [u8; 4] = [0x90, 0x40, 0x7F, 0x00];

    let (command, _command_bytes_read) = MidiCommand::from_be_bytes(&bytes[0..], None).unwrap();

    let (timed_command, timed_bytes_read) = TimedCommand::from_be_bytes(&bytes, None, false).unwrap();

    assert_eq!(timed_command.command(), &command);
    assert_eq!(timed_command.delta_time(), None);
    assert_eq!(timed_bytes_read, 3);
}

#[test]
fn test_timed_command_write_to_bytes() {
    let mut expected_bytes = vec![0; 10];
    let mut expected_bytes_written = 0;

    let delta_time = DeltaTime::new(0x123456);
    expected_bytes_written += delta_time.write_to_bytes(&mut expected_bytes).unwrap();
    let command = MidiCommand::NoteOn { channel: 7, key: 0x40, velocity: 0x7F };
    expected_bytes_written += command
        .write_to_bytes(&mut expected_bytes[expected_bytes_written..], None)
        .unwrap();

    let timed_command = TimedCommand::new(Some(delta_time.clone()), command.clone());

    let mut bytes = [0u8; 10];
    let bytes_written = timed_command.write_to_bytes(&mut bytes, None, true).unwrap();

    assert_eq!(bytes_written, expected_bytes_written);
    assert_eq!(bytes[..bytes_written], expected_bytes[..bytes_written]);
}

#[test]
fn test_timed_command_write_to_bytes_without_delta_time() {
    let mut expected_bytes = vec![0; 10];
    let mut expected_bytes_written = 0;

    let command = MidiCommand::NoteOn { channel: 7, key: 0x40, velocity: 0x7F };
    expected_bytes_written += command
        .write_to_bytes(&mut expected_bytes[expected_bytes_written..], None)
        .unwrap();

    let timed_command = TimedCommand::new(None, command.clone());

    let mut bytes = [0u8; 10];
    let bytes_written = timed_command.write_to_bytes(&mut bytes, None, false).unwrap();

    assert_eq!(bytes_written, expected_bytes_written);
    assert_eq!(bytes[..bytes_written], expected_bytes[..bytes_written]);
}

#[test]
fn test_timed_command_write_to_bytes_with_zero_delta_time() {
    let mut expected_bytes = vec![0; 10];
    let mut expected_bytes_written = 0;

    let delta_time = DeltaTime::zero();
    expected_bytes_written += delta_time.write_to_bytes(&mut expected_bytes).unwrap();

    let command = MidiCommand::NoteOn { channel: 7, key: 0x40, velocity: 0x7F };
    expected_bytes_written += command
        .write_to_bytes(&mut expected_bytes[expected_bytes_written..], None)
        .unwrap();

    let timed_command = TimedCommand::new(None, command.clone());

    let mut bytes = [0u8; 10];
    let bytes_written = timed_command.write_to_bytes(&mut bytes, None, true).unwrap();

    assert_eq!(bytes_written, expected_bytes_written);
    assert_eq!(bytes[..bytes_written], expected_bytes[..bytes_written]);
}

#[test]
fn test_timed_command_serialize_and_deserialize() {
    let delta_time = DeltaTime::new(0x123456);
    let command = MidiCommand::NoteOn { channel: 7, key: 0x40, velocity: 0x7F };
    let original_timed_command = TimedCommand::new(Some(delta_time.clone()), command.clone());

    let mut bytes = [0u8; 10];
    let bytes_written = original_timed_command.write_to_bytes(&mut bytes, None, true).unwrap();

    let (deserialized_timed_command, bytes_read) =
        TimedCommand::from_be_bytes(&bytes[..bytes_written], None, true).unwrap();

    assert_eq!(original_timed_command, deserialized_timed_command);
    assert_eq!(bytes_written, bytes_read);
}

#[test]
fn timed_command_write_error_leaves_buffer() {
    let t = TimedCommand::new(Some(DeltaTime::new(0x4000)), MidiCommand::NoteOn { channel: 0, key: 1, velocity: 2 });
    let mut bytes = [9u8; 2];
    assert_eq!(t.write_to_bytes(&mut bytes, None, true).unwrap_err().kind(), ErrorKind::WriteZero);
    assert_eq!(bytes, [9, 9]);
}

#[test]
fn midi_packet_test_midi_packet() {
    let sequence_number = 1;
    let timestamp = 1234567890;
    let ssrc = 987654321;

    let command = MidiCommand::NoteOn { key: 60, velocity: 127, channel: 0 };
    let timed_command = TimedCommand::new(None, command);

    let packet = MidiPacket::new(sequence_number, timestamp, ssrc, &[timed_command]);

    let mut bytes = vec![0; packet.size()];
    packet.write_to_bytes(&mut bytes).unwrap();

    let parsed_packet = MidiPacket::from_be_bytes(&bytes).unwrap();

    assert_eq!(packet.header().sequence_number(), parsed_packet.header().sequence_number());
    assert_eq!(packet.header().timestamp(), parsed_packet.header().timestamp());
    assert_eq!(packet.header().ssrc(), parsed_packet.header().ssrc());
    assert_eq!(packet.commands().len(), parsed_packet.commands().len());
    assert_eq!(packet.command_section(), parsed_packet.command_section());
    assert_eq!(packet.sequence_number(), 1);
    stream_test_midi_packet();
}

fn stream_test_midi_packet() {
    let sequence_number = 1;
    let timestamp = 1234567890;
    let ssrc = 987654321;

    let command = PacketsMidiCommand::NoteOn { key: 60, velocity: 127, channel: 0 };
    let timed_command = StreamTimedCommand::new(None, command);

    let packet = StreamMidiPacket::new(sequence_number, timestamp, ssrc, &[timed_command]);

    let mut bytes = Vec::new();
    packet.write(&mut bytes, false).unwrap();
    bytes.resize(packet.size(false), 0);

    let parsed_packet = StreamMidiPacket::from_be_bytes(&bytes).unwrap();

    assert_eq!(packet.sequence_number(), parsed_packet.sequence_number());
    assert_eq!(packet.timestamp(), parsed_packet.timestamp());
    assert_eq!(packet.ssrc(), parsed_packet.ssrc());
    assert_eq!(packet.commands().len(), parsed_packet.commands().len());
    assert_eq!(packet.commands(), parsed_packet.commands());
}

#[test]
fn midi_packet_bytes_and_section_with_running_status() {
    let commands = [
        TimedCommand::new(None, MidiCommand::NoteOn { channel: 1, key: 60, velocity: 100 }),
        TimedCommand::new(Some(DeltaTime::new(5)), MidiCommand::NoteOn { channel: 1, key: 62, velocity: 0 }),
    ];
    let packet = MidiPacket::new(7, 2, 3, &commands);
    let mut bytes = vec![0; packet.size()];
    assert_eq!(packet.write_to_bytes(&mut bytes).unwrap(), bytes.len());
    assert_eq!(
        bytes,
        vec![0x80, 0x61, 0, 7, 0, 0, 0, 2, 0, 0, 0, 3, 0x06, 0x91, 60, 100, 5, 62, 0]
    );
    let parsed = MidiPacket::from_be_bytes(&bytes).unwrap();
    assert_eq!(parsed.commands(), &commands[..]);
}

fn packets_test_midi_command_from_bytes_without_status_byte() {
    let bytes = vec![0x40u8, 0x7F, 0x00];
    let mut reader = ByteReader::new(bytes);
    let command = PacketsMidiCommand::read(&mut reader, Some(0x94)).unwrap();
    assert_eq!(command.status(), 0x94);
    if let PacketsMidiCommand::NoteOn { key, velocity, .. } = command {
        assert_eq!(key, 0x40);
        assert_eq!(velocity, 0x7F);
    } else {
        panic!("Not a NoteOn command");
    }
}

fn packets_test_serialize_and_deserialize() {
    let original_command = PacketsMidiCommand::NoteOn { channel: 4, key: 0x40, velocity: 0x7F };
    let mut bytes = Vec::new();
    let _ = original_command.write(&mut bytes, None).unwrap();
    let mut reader = ByteReader::new(bytes.clone());
    let deserialized_command = PacketsMidiCommand::read(&mut reader, None).unwrap();
    assert_eq!(original_command, deserialized_command);
}

fn packets_test_timed_command() {
    let delta_time = 0x123456;
    let command = PacketsMidiCommand::NoteOn { channel: 7, key: 0x40, velocity: 0x7F };
    let timed_command = PacketsTimedCommand::new(Some(delta_time), command.clone());

    assert_eq!(timed_command.delta_time(), delta_time);
    assert_eq!(timed_command.command(), &command);
}

#[test]
fn stream_delta_time_reads_past_four_bytes() {
    // Five bytes: the time keeps its low 32 bits.
    let mut reader = ByteReader::new(vec![0x8F, 0xFF, 0xFF, 0xFF, 0x7F, 0x55]);
    let d = StreamDeltaTime::read(&mut reader).unwrap();
    let mut out = Vec::new();
    assert_eq!(d.write(&mut out).unwrap(), 5);
    assert_eq!(out, vec![0x8F, 0xFF, 0xFF, 0xFF, 0x7F]);
    assert_eq!(reader.position(), 5);
    let mut short = ByteReader::new(vec![0x81, 0x80]);
    assert_eq!(StreamDeltaTime::read(&mut short).unwrap_err().kind(), ErrorKind::UnexpectedEof);
}
