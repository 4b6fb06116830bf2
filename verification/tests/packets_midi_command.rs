use rtp_midi::io::ErrorKind;
use rtp_midi::packets::midi_packets::delta_time_zero_alloc::DeltaTimeZeroAlloc;
use rtp_midi::packets::midi_packets::midi_command::MidiCommand;
use rtp_midi::packets::midi_packets::midi_timed_command_zero_alloc::MidiTimedCommandZeroAlloc;
use rtp_midi::stream::ByteReader;

#[test]
fn test_midi_command_read_with_status_byte() {
    let bytes: Vec<u8> = vec![0x94u8, 0x40, 0x7F, 0x00];
    let mut reader = ByteReader::new(bytes);
    let command = MidiCommand::read(&mut reader, None).unwrap();
    assert_eq!(command.status(), 0x94);
    if let MidiCommand::NoteOn { key, velocity, .. } = command {
        assert_eq!(key, 0x40);
        assert_eq!(velocity, 0x7F);
    } else {
        panic!("Not a NoteOn command");
    }
}

#[test]
fn midi_command_test_midi_command_write() {
    let command = MidiCommand::NoteOn { channel: 4, key: 0x40, velocity: 0x7F };
    let mut bytes = Vec::new();
    let bytes_written = command.write(&mut bytes, None).unwrap();
    assert_eq!(bytes_written, 3);
    assert_eq!(bytes[..3], [0x94, 0x40, 0x7F]);
}

fn test_command_read_type(bytes: &[u8], expected_command: MidiCommand) {
    let mut reader = ByteReader::new(bytes.to_vec());
    let command = MidiCommand::read(&mut reader, None).unwrap();
    assert_eq!(command, expected_command);
}

#[test]
fn test_command_read_polyphonic_key_pressure() {
    let bytes: Vec<u8> = vec![0xA4u8, 0x40, 0x7F];
    let expected_command = MidiCommand::PolyphonicKeyPressure { channel: 4, key: 0x40, pressure: 0x7F };
    test_command_read_type(&bytes, expected_command);
}

#[test]
fn test_command_read_control_change() {
    let bytes: Vec<u8> = vec![0xB4u8, 0x40, 0x7F];
    let expected_command = MidiCommand::ControlChange { channel: 4, controller: 0x40, value: 0x7F };
    test_command_read_type(&bytes, expected_command);
}

#[test]
fn test_command_read_program_change() {
    let bytes: Vec<u8> = vec![0xC4u8, 0x40];
    let expected_command = MidiCommand::ProgramChange { channel: 4, program: 0x40 };
    test_command_read_type(&bytes, expected_command);
}

#[test]
fn test_command_read_channel_pressure() {
    let bytes: Vec<u8> = vec![0xD4u8, 0x40];
    let expected_command = MidiCommand::ChannelPressure { channel: 4, pressure: 0x40 };
    test_command_read_type(&bytes, expected_command);
}

#[test]
fn test_command_read_pitch_bend() {
    let bytes: Vec<u8> = vec![0xE4u8, 0x40, 0x7F];
    let expected_command = MidiCommand::PitchBend { channel: 4, lsb: 0x40, msb: 0x7F };
    test_command_read_type(&bytes, expected_command);
}

#[test]
fn test_command_read_invalid() {
    let bytes: Vec<u8> = vec![0xFFu8, 0x40, 0x7F];
    let mut reader = ByteReader::new(bytes);
    let result = MidiCommand::read(&mut reader, None);
    assert!(result.is_err());
    assert_eq!(result.unwrap_err().kind(), ErrorKind::InvalidData);
}

fn test_command_write_type(command: MidiCommand, expected_bytes: &[u8]) {
    let mut bytes = Vec::new();
    let bytes_written = command.write(&mut bytes, None).unwrap();
    assert_eq!(bytes_written, expected_bytes.len());
    assert_eq!(bytes, expected_bytes);
}

#[test]
fn midi_command_test_command_write_note_off() {
    let command = MidiCommand::NoteOff { channel: 4, key: 0x40, velocity: 0x7F };
    test_command_write_type(command, &[0x84u8, 0x40, 0x7F]);
}

#[test]
fn midi_command_test_command_write_note_on() {
    let command = MidiCommand::NoteOn { channel: 4, key: 0x40, velocity: 0x7F };
    test_command_write_type(command, &[0x94u8, 0x40, 0x7F]);
}

#[test]
fn midi_command_test_command_write_polyphonic_key_pressure() {
    let command = MidiCommand::PolyphonicKeyPressure { channel: 4, key: 0x40, pressure: 0x7F };
    test_command_write_type(command, &[0xA4u8, 0x40, 0x7F]);
}

#[test]
fn midi_command_test_command_write_control_change() {
    let command = MidiCommand::ControlChange { channel: 4, controller: 0x40, value: 0x7F };
    test_command_write_type(command, &[0xB4u8, 0x40, 0x7F]);
}

#[test]
fn midi_command_test_command_write_program_change() {
    let command = MidiCommand::ProgramChange { channel: 4, program: 0x40 };
    test_command_write_type(command, &[0xC4u8, 0x40]);
}

#[test]
fn midi_command_test_command_write_channel_pressure() {
    let command = MidiCommand::ChannelPressure { channel: 4, pressure: 0x40 };
    test_command_write_type(command, &[0xD4u8, 0x40]);
}

#[test]
fn midi_command_test_command_write_pitch_bend() {
    let command = MidiCommand::PitchBend { channel: 4, lsb: 0x40, msb: 0x7F };
    test_command_write_type(command, &[0xE4u8, 0x40, 0x7F]);
}

#[test]
fn midi_command_test_command_write_invalid() {
    let command = MidiCommand::NoteOn { channel: 4, key: 0x40, velocity: 0x7F };
    let mut bytes = Vec::new();
    let result = command.write(&mut bytes, None);
    assert!(result.is_ok());
    assert_eq!(bytes, vec![0x94u8, 0x40, 0x7F]);
}

#[test]
fn test_command_read_without_running_status() {
    let bytes: Vec<u8> = vec![0x40, 0x7F];
    let mut reader = ByteReader::new(bytes);
    let result = MidiCommand::read(&mut reader, None);
    assert!(result.is_err());
    assert_eq!(result.unwrap_err().kind(), ErrorKind::InvalidData);
}

#[test]
fn sysex_read_write_and_errors() {
    let sysex = MidiCommand::SysEx { data: vec![1, 2, 3] };
    let mut bytes = Vec::new();
    assert_eq!(sysex.write(&mut bytes, Some(0xF0)).unwrap(), 5);
    assert_eq!(bytes, vec![0xF0, 1, 2, 3, 0xF7]);
    let mut reader = ByteReader::new(bytes.clone());
    assert_eq!(MidiCommand::read(&mut reader, None).unwrap(), sysex);
    assert_eq!(reader.position(), 5);
    let (back, n) = MidiCommand::from_be_bytes(&bytes, None).unwrap();
    assert_eq!((back, n), (sysex.clone(), 5));
    // Whatever the running status, one 0xF0 opens the frame.
    let mut framed = Vec::new();
    assert_eq!(sysex.write(&mut framed, None).unwrap(), 5);
    assert_eq!(framed, vec![0xF0, 1, 2, 3, 0xF7]);
    let mut after_note = Vec::new();
    assert_eq!(sysex.write(&mut after_note, Some(0x90)).unwrap(), 5);
    assert_eq!(after_note, vec![0xF0, 1, 2, 3, 0xF7]);
    let mut two = Vec::new();
    assert_eq!(MidiCommand::SysEx { data: vec![0x01, 0x02] }.write(&mut two, None).unwrap(), 4);
    assert_eq!(two, vec![0xF0, 0x01, 0x02, 0xF7]);
    // An unterminated System Exclusive message.
    let mut open = ByteReader::new(vec![0xF0, 1, 2]);
    assert_eq!(MidiCommand::read(&mut open, None).unwrap_err().kind(), ErrorKind::UnexpectedEof);
    assert_eq!(MidiCommand::from_be_bytes(&[0xF0, 1, 2], None).unwrap_err().kind(), ErrorKind::InvalidData);
    // A stream that ends inside a channel message.
    let mut cut = ByteReader::new(vec![0x90, 0x40]);
    assert_eq!(MidiCommand::read(&mut cut, None).unwrap_err().kind(), ErrorKind::UnexpectedEof);
}

#[test]
fn running_status_is_left_out_and_read_back() {
    let cmd = MidiCommand::ControlChange { channel: 3, controller: 7, value: 100 };
    let mut bytes = Vec::new();
    assert_eq!(cmd.write(&mut bytes, Some(0xB3)).unwrap(), 2);
    assert_eq!(bytes, vec![7, 100]);
    let mut reader = ByteReader::new(bytes);
    assert_eq!(MidiCommand::read(&mut reader, Some(0xB3)).unwrap(), cmd);
    assert_eq!(cmd.size(), 2);
    assert_eq!(MidiCommand::SysEx { data: vec![9; 4] }.size(), 6);
}

#[test]
fn zero_alloc_sysex_keeps_all_data() {
    let bytes = [0xF0u8, 0x01, 0x02, 0xF7, 0x90];
    let (timed, n) = MidiTimedCommandZeroAlloc::from_be_bytes(&bytes, false, None).unwrap();
    assert_eq!(n, 4);
    assert_eq!(timed.command(), MidiCommand::SysEx { data: vec![0x01, 0x02] });
    let (owned, m) = MidiCommand::from_be_bytes(&bytes, None).unwrap();
    assert_eq!((owned, m), (MidiCommand::SysEx { data: vec![0x01, 0x02] }, 4));
    let (empty, k) = MidiTimedCommandZeroAlloc::from_be_bytes(&[0xF0, 0xF7], false, None).unwrap();
    assert_eq!(k, 2);
    assert_eq!(empty.command(), MidiCommand::SysEx { data: vec![] });
    assert!(MidiTimedCommandZeroAlloc::from_be_bytes(&[0xF0, 0x01], false, None).is_err());
}

#[test]
fn zero_alloc_delta_time_includes_last_byte() {
    let a = [0x0Bu8, 0x3E, 0x00];
    let (d, n) = DeltaTimeZeroAlloc::from_be_bytes(&a);
    assert_eq!(n, 1);
    assert_eq!(d.delta_time(), 11);
    let b = [0x81u8, 0x00, 0x90];
    let (d, n) = DeltaTimeZeroAlloc::from_be_bytes(&b);
    assert_eq!(n, 2);
    assert_eq!(d.delta_time(), 128);
    let timed_bytes = [0x81u8, 0x00, 0x90, 0x3C, 0x40];
    let (timed, m) = MidiTimedCommandZeroAlloc::from_be_bytes(&timed_bytes, true, None).unwrap();
    assert_eq!(m, 5);
    assert_eq!(timed.delta_time(), 128);
    assert_eq!(timed.command(), MidiCommand::NoteOn { channel: 0, key: 0x3C, velocity: 0x40 });
}
