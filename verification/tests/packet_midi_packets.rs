use rtp_midi::io::ErrorKind;
use rtp_midi::packet::midi_packets::delta_time::DeltaTime;
use rtp_midi::packet::midi_packets::midi_command_list_body::MidiCommandListBody;
use rtp_midi::packet::midi_packets::midi_command_list_header::{MidiCommandListFlags, MidiCommandListHeader};
use rtp_midi::packet::midi_packets::midi_packet::MidiPacket;
use rtp_midi::packet::midi_packets::midi_timed_command::TimedCommand;
use rtp_midi::packets::midi_packets::delta_time::WriteDeltaTimeExt;
use rtp_midi::packets::midi_packets::midi_command::MidiCommand;
use rtp_midi::stream::ByteReader;

fn test_delta_time_rw(delta_time_val: u32, expected_bytes: &[u8]) {
    let dt = DeltaTime::new(delta_time_val);

    let mut buffer: Vec<u8> = Vec::new();
    let bytes_written = dt.write(&mut buffer).unwrap();
    assert_eq!(bytes_written, expected_bytes.len());
    assert_eq!(buffer, expected_bytes);

    let mut reader = ByteReader::new(buffer);
    let read_dt = DeltaTime::read(&mut reader).unwrap();
    assert_eq!(read_dt, dt);
}

fn test_write_delta_time(delta_time: u32, expected_bytes: &[u8]) {
    let mut buffer: Vec<u8> = Vec::new();
    let bytes_written = buffer.write_delta_time(delta_time).unwrap();
    assert_eq!(bytes_written, expected_bytes.len());
    assert_eq!(buffer, expected_bytes);
}

fn check_both(delta_time: u32, expected_bytes: &[u8]) {
    test_delta_time_rw(delta_time, expected_bytes);
    test_write_delta_time(delta_time, expected_bytes);
}

#[test]
fn delta_time_test_delta_time_zero() {
    check_both(0, &[0x00]);
}

#[test]
fn delta_time_test_one_byte_delta_time() {
    check_both(0x7F, &[0x7F]);
    check_both(0x40, &[0x40]);
}

#[test]
fn delta_time_test_two_byte_delta_time() {
    check_both(0x80, &[0b1000_0001, 0b0000_0000]);
    check_both(0x3FFF, &[0xFF, 0x7F]);
    check_both(0x2000, &[0xC0, 0x00]);
}

#[test]
fn delta_time_test_three_byte_delta_time() {
    check_both(0x4000, &[0x81, 0x80, 0x00]);
    check_both(0x1FFFFF, &[0xFF, 0xFF, 0x7F]);
    check_both(0x100000, &[0xC0, 0x80, 0x00]);
}

#[test]
fn delta_time_test_four_byte_delta_time() {
    check_both(0x200000, &[0x81, 0x80, 0x80, 0x00]);
    check_both(0x0FFFFFFF, &[0xFF, 0xFF, 0xFF, 0x7F]);
    check_both(0x08000000, &[0xC0, 0x80, 0x80, 0x00]);
}

#[test]
fn delta_time_test_size_calculation() {
    assert_eq!(DeltaTime::new(0).size(), 1);
    assert_eq!(DeltaTime::new(0x7F).size(), 1);
    assert_eq!(DeltaTime::new(0x80).size(), 2);
    assert_eq!(DeltaTime::new(0x3FFF).size(), 2);
    assert_eq!(DeltaTime::new(0x4000).size(), 3);
    assert_eq!(DeltaTime::new(0x1FFFFF).size(), 3);
    assert_eq!(DeltaTime::new(0x200000).size(), 4);
    assert_eq!(DeltaTime::new(0x0FFFFFFF).size(), 4);

    assert_eq!(<Vec<u8> as WriteDeltaTimeExt>::delta_time_size(0), 1);
    assert_eq!(<Vec<u8> as WriteDeltaTimeExt>::delta_time_size(0x7F), 1);
    assert_eq!(<Vec<u8> as WriteDeltaTimeExt>::delta_time_size(0x80), 2);
    assert_eq!(<Vec<u8> as WriteDeltaTimeExt>::delta_time_size(0x3FFF), 2);
    assert_eq!(<Vec<u8> as WriteDeltaTimeExt>::delta_time_size(0x4000), 3);
    assert_eq!(<Vec<u8> as WriteDeltaTimeExt>::delta_time_size(0x1FFFFF), 3);
    assert_eq!(<Vec<u8> as WriteDeltaTimeExt>::delta_time_size(0x200000), 4);
    assert_eq!(<Vec<u8> as WriteDeltaTimeExt>::delta_time_size(0x0FFFFFFF), 4);
}

#[test]
fn delta_time_five_bytes_and_zero() {
    check_both(0xFFFF_FFFF, &[0x8F, 0xFF, 0xFF, 0xFF, 0x7F]);
    assert_eq!(DeltaTime::new(0x1000_0000).size(), 5);
    assert_eq!(DeltaTime::zero(), DeltaTime::new(0));
}

#[test]
fn test_new_and_commands() {
    let command = MidiCommand::NoteOn { channel: 1, key: 60, velocity: 100 };
    let timed_command = TimedCommand::new(None, command);
    let body = MidiCommandListBody::new(&[timed_command.clone()]);
    let commands = body.commands();
    assert_eq!(commands.len(), 1);
    assert_eq!(commands[0], timed_command);
}

#[test]
fn test_size_and_write_read_roundtrip() {
    let command1 = MidiCommand::NoteOn { channel: 1, key: 60, velocity: 100 };
    let command2 = MidiCommand::NoteOff { channel: 1, key: 60, velocity: 0 };
    let timed1 = TimedCommand::new(None, command1);
    let timed2 = TimedCommand::new(Some(DeltaTime::zero()), command2);
    let body = MidiCommandListBody::new(&[timed1.clone(), timed2.clone()]);
    let size = body.size(false);
    let mut buf = Vec::with_capacity(size);
    body.write(&mut buf, false).unwrap();
    let mut cursor = ByteReader::new(buf);
    let parsed = MidiCommandListBody::read(&mut cursor, false).unwrap();
    assert_eq!(parsed.commands().len(), 2);
    assert_eq!(parsed.commands()[0], timed1);
    assert_eq!(parsed.commands()[1], timed2);
}

#[test]
fn list_body_running_status_size_and_errors() {
    let a = TimedCommand::new(None, MidiCommand::NoteOn { channel: 2, key: 60, velocity: 100 });
    let b = TimedCommand::new(Some(DeltaTime::new(0x80)), MidiCommand::NoteOn { channel: 2, key: 62, velocity: 90 });
    let body = MidiCommandListBody::new(&[a, b]);
    let mut buf = Vec::new();
    assert_eq!(body.write(&mut buf, false).unwrap(), 7);
    // The second command repeats the status, which is left out.
    assert_eq!(buf, vec![0x92, 60, 100, 0x81, 0x00, 62, 90]);
    assert_eq!(body.size(false), 7);
    // With Z set the first command has a delta time too (zero when it has none).
    assert_eq!(body.size(true), 8);
    // A data byte with no running status is refused.
    let mut bad = ByteReader::new(vec![0x40, 0x7F]);
    assert_eq!(MidiCommandListBody::read(&mut bad, false).unwrap_err().kind(), ErrorKind::InvalidData);
    // A list cut short inside a command ends with what was read.
    let mut cut = ByteReader::new(vec![0x92, 60, 100, 0x00, 62]);
    assert_eq!(MidiCommandListBody::read(&mut cut, false).unwrap().commands().len(), 1);
}

#[test]
fn list_body_size_counts_an_extra_byte_above_fifteen() {
    let cmds: Vec<TimedCommand> = (0..6)
        .map(|i| TimedCommand::new(Some(DeltaTime::new(1)), MidiCommand::NoteOn { channel: 0, key: i, velocity: 1 }))
        .collect();
    let body = MidiCommandListBody::new(&cmds);
    let mut buf = Vec::new();
    let written = body.write(&mut buf, false).unwrap();
    assert_eq!(written, 3 + 5 * 3);
    assert_eq!(body.size(false), written + 1);
}

#[test]
fn list_flags_and_header() {
    let flags = MidiCommandListFlags::new(true, false, true, false);
    assert!(flags.b_flag() && !flags.j_flag() && flags.z_flag() && !flags.p_flag());
    assert_eq!(MidiCommandListFlags::from_u8(0xA7), flags);
    assert!(MidiCommandListFlags::needs_b_flag(16));
    assert!(!MidiCommandListFlags::needs_b_flag(15));
    assert_eq!(MidiCommandListHeader::size(true), 2);
    assert_eq!(MidiCommandListHeader::size(false), 1);

    let header = MidiCommandListHeader::new(flags, 0x123);
    let mut out = Vec::new();
    assert_eq!(header.write(&mut out).unwrap(), 2);
    assert_eq!(out, vec![0xA1, 0x23]);
    let mut reader = ByteReader::new(out);
    let back = MidiCommandListHeader::read(&mut reader).unwrap();
    assert_eq!(*back.flags(), flags);
    assert_eq!(back.length(), 0x123);

    let small = MidiCommandListHeader::new(MidiCommandListFlags::new(false, true, false, true), 5);
    let mut out = Vec::new();
    assert_eq!(small.write(&mut out).unwrap(), 1);
    assert_eq!(out, vec![0x55]);
    let mut short = ByteReader::new(vec![0x80]);
    match MidiCommandListHeader::read(&mut short) {
        Err(e) => assert_eq!(e.kind(), ErrorKind::UnexpectedEof),
        Ok(_) => panic!("Expected a short header to fail"),
    }

    let body = MidiCommandListBody::new(&[TimedCommand::new(None, MidiCommand::ProgramChange { channel: 1, program: 2 })]);
    let built = MidiCommandListHeader::build_for(&body, true, false, true);
    assert_eq!(built.length(), 2);
    assert!(!built.flags().b_flag() && built.flags().j_flag() && built.flags().p_flag());
}

#[test]
fn stream_packet_to_bytes_reads_back() {
    let cmds: Vec<TimedCommand> = (0..6)
        .map(|i| TimedCommand::new(Some(DeltaTime::new(300)), MidiCommand::NoteOn { channel: 3, key: i, velocity: 64 }))
        .collect();
    let packet = MidiPacket::new(9, 77, 5, &cmds);
    let bytes = packet.to_bytes(true);
    assert_eq!(bytes.len(), packet.size(true));
    assert_eq!(&bytes[..4], &[0x80, 0x61, 0, 9]);
    let parsed = MidiPacket::from_be_bytes(&bytes).unwrap();
    assert_eq!(parsed.sequence_number(), 9);
    assert_eq!(parsed.timestamp(), 77);
    assert_eq!(parsed.ssrc(), 5);
    assert_eq!(parsed.commands(), &cmds[..]);
    assert_eq!(MidiPacket::from_be_bytes(&bytes[..10]).unwrap_err().kind(), ErrorKind::UnexpectedEof);
}

#[test]
fn stream_packet_new_keeps_commands() {
    let cmds = vec![
        TimedCommand::new(None, MidiCommand::ControlChange { channel: 1, controller: 7, value: 90 }),
        TimedCommand::new(Some(DeltaTime::new(200)), MidiCommand::SysEx { data: vec![0x7E, 0x01, 0x02] }),
        TimedCommand::new(Some(DeltaTime::new(0)), MidiCommand::NoteOff { channel: 1, key: 60, velocity: 0 }),
    ];
    let packet = MidiPacket::new(42, 1000, 0xCAFE, &cmds);
    assert_eq!(packet.commands(), &cmds[..]);
    assert_eq!(packet.sequence_number(), 42);
    assert_eq!(packet.timestamp(), 1000);
    assert_eq!(packet.ssrc(), 0xCAFE);
}
