use bytes::BytesMut;
use rtp_midi::io::ErrorKind;
use rtp_midi::packets::midi_packets::midi_message_ext::MidiMessage;
use rtp_midi::packets::midi_packets::rtp_midi_message::RtpMidiMessage;

#[test]
fn midi_message_ext_test_midi_command() {
    // Channel 7 is the seventh channel, numbered 6; C4 is note 72.
    let command = MidiMessage::NoteOn(6, 72, 0x7F);
    if let MidiMessage::NoteOn(channel, key, velocity) = command {
        assert_eq!(channel, 6);
        assert_eq!(key, 72);
        assert_eq!(velocity, 0x7F);
    } else {
        panic!("Not a NoteOn command");
    }
}

#[test]
fn midi_message_ext_test_midi_command_write() {
    // Channel 5 (numbered 4), note E3 (64).
    let command = MidiMessage::NoteOn(4, 64, 0x7F);
    let mut bytes = BytesMut::new();
    command.write(&mut bytes, None);
    assert_eq!(bytes.len(), 3);
    assert_eq!(bytes[..3], [0x94, 0x40, 0x7F]);
}

fn test_command_write_type(command: MidiMessage, expected_bytes: &[u8]) {
    let mut bytes = BytesMut::new();
    command.write(&mut bytes, None);
    assert_eq!(bytes.len(), expected_bytes.len());
    assert_eq!(bytes, expected_bytes);
}

#[test]
fn midi_message_ext_test_command_write_note_off() {
    test_command_write_type(MidiMessage::NoteOff(4, 0x40, 0x7F), &[0x84u8, 0x40, 0x7F]);
}

#[test]
fn midi_message_ext_test_command_write_note_on() {
    test_command_write_type(MidiMessage::NoteOn(4, 0x40, 0x7F), &[0x94u8, 0x40, 0x7F]);
}

#[test]
fn midi_message_ext_test_command_write_polyphonic_key_pressure() {
    test_command_write_type(MidiMessage::KeyPressure(4, 0x40, 0x7F), &[0xA4u8, 0x40, 0x7F]);
}

#[test]
fn midi_message_ext_test_command_write_control_change() {
    test_command_write_type(MidiMessage::ControlChange(4, 0x40, 0x7F), &[0xB4u8, 0x40, 0x7F]);
}

#[test]
fn midi_message_ext_test_command_write_program_change() {
    test_command_write_type(MidiMessage::ProgramChange(4, 0x40), &[0xC4u8, 0x40]);
}

#[test]
fn midi_message_ext_test_command_write_channel_pressure() {
    test_command_write_type(MidiMessage::ChannelPressure(4, 0x40), &[0xD4u8, 0x40]);
}

#[test]
fn midi_message_ext_test_command_write_pitch_bend() {
    test_command_write_type(MidiMessage::PitchBendChange(4, 0x40, 0x7F), &[0xE4u8, 0x40, 0x7F]);
}

#[test]
fn midi_message_ext_test_command_write_invalid() {
    let command = MidiMessage::NoteOn(4, 0x40, 0x7F);
    let mut bytes = BytesMut::new();
    command.write(&mut bytes, None);
    assert_eq!(&bytes[..], &[0x94u8, 0x40, 0x7F]);
}

#[test]
fn midi_message_read_back_and_running_status() {
    let msg = MidiMessage::ControlChange(9, 7, 100);
    let mut bytes = BytesMut::new();
    msg.write(&mut bytes, None);
    bytes.extend_from_slice(&[1, 2]);
    let (back, rest) = MidiMessage::from_be_bytes(&bytes, None).unwrap();
    assert_eq!(back, RtpMidiMessage::MidiMessage(msg));
    assert_eq!(rest, &[1, 2]);
    let mut under_rs = BytesMut::new();
    msg.write(&mut under_rs, Some(0xB9));
    assert_eq!(&under_rs[..], &[7, 100]);
    let (back, rest) = MidiMessage::from_be_bytes(&under_rs, Some(0xB9)).unwrap();
    assert_eq!(back, RtpMidiMessage::MidiMessage(msg));
    assert!(rest.is_empty());
    assert_eq!(MidiMessage::from_be_bytes(&[0x40, 0x00], None).unwrap_err().kind(), ErrorKind::InvalidData);
    assert_eq!(MidiMessage::from_be_bytes(&[0xF4], None).unwrap_err().kind(), ErrorKind::InvalidData);
}

#[test]
fn system_messages_and_sysex() {
    let (m, rest) = MidiMessage::from_be_bytes(&[0xF8, 0x90], None).unwrap();
    assert_eq!(m, RtpMidiMessage::MidiMessage(MidiMessage::TimingClock));
    assert_eq!(rest, &[0x90]);
    let (m, _) = MidiMessage::from_be_bytes(&[0xF2, 0x10, 0x20], None).unwrap();
    assert_eq!(m, RtpMidiMessage::MidiMessage(MidiMessage::SongPositionPointer(0x10, 0x20)));
    assert_eq!(m.len(), 3);
    // The data of a System Exclusive message starts at the second byte after
    // 0xF0, and what follows it starts at its 0xF7.
    let (m, rest) = MidiMessage::from_be_bytes(&[0xF0, 0x01, 0x02, 0x03, 0xF7, 0x90], None).unwrap();
    assert_eq!(m, RtpMidiMessage::SysEx(&[0x02, 0x03]));
    assert_eq!(rest, &[0xF7, 0x90]);
    assert_eq!(m.len(), 4);
    assert!(!m.is_empty());
    assert_eq!(m.status(), 0xF0);
    let mut out = BytesMut::new();
    m.write(&mut out, None);
    assert_eq!(&out[..], &[0xF0, 0x02, 0x03, 0xF7]);
    assert_eq!(MidiMessage::Reset.status(), 0xFF);
    assert_eq!(MidiMessage::QuarterFrame(3).len(), 2);
}

#[test]
fn rtp_midi_message_from_midi_message() {
    let msg = MidiMessage::ControlChange(2, 7, 100);
    let rtp: RtpMidiMessage = RtpMidiMessage::from(msg);
    assert_eq!(rtp, RtpMidiMessage::MidiMessage(MidiMessage::ControlChange(2, 7, 100)));
    assert_eq!(rtp.len(), 3);
    assert_eq!(rtp.status(), 0xB2);
    let mut bytes = BytesMut::with_capacity(8);
    rtp.write(&mut bytes, None);
    assert_eq!(&bytes[..], &[0xB2, 7, 100]);
}
