use midi_surface::encode::{convert_value_to_lsb_msb, initialize_mc_device, make_sysex_mesg, Ratio};
use midi_surface::frame::{make_raw_midi_mesg, EncodeError, MAX_MIDI_MSG_SIZE};

fn decode_wire(bytes: [u8; 2]) -> f64 {
    (((bytes[1] as u16) << 7) | bytes[0] as u16) as f64 / 16384.0
}

#[test]
fn wire_bytes_of_known_values() {
    assert_eq!(convert_value_to_lsb_msb(Ratio { num: 0, den: 1 }), [0x00, 0x00]);
    assert_eq!(convert_value_to_lsb_msb(Ratio { num: 1, den: 2 }), [0x00, 0x40]);
    assert_eq!(convert_value_to_lsb_msb(Ratio { num: 4, den: 5 }), [0x33, 0x66]);
    assert_eq!(convert_value_to_lsb_msb(Ratio { num: 1, den: 1 }), [0x7F, 0x7F]);
}

#[test]
fn wire_round_trip_within_tolerance() {
    for (num, den) in [(0u32, 1u32), (1, 2), (99994, 100000), (1, 1)] {
        let x = num as f64 / den as f64;
        let back = decode_wire(convert_value_to_lsb_msb(Ratio { num, den }));
        assert!((back - x).abs() <= 1.0 / 16384.0, "{} -> {}", x, back);
    }
}

#[test]
fn frame_is_zero_padded() {
    let f = make_raw_midi_mesg(7, &[0xE0, 0x01, 0x02]).unwrap();
    assert_eq!(f.time, 7);
    assert_eq!(f.data.len(), MAX_MIDI_MSG_SIZE);
    assert_eq!(f.data[..3], [0xE0, 0x01, 0x02]);
    assert!(f.data[3..].iter().all(|b| *b == 0));
}

#[test]
fn frame_over_capacity_is_refused() {
    let big = [0u8; 17];
    assert_eq!(make_raw_midi_mesg(0, &big).unwrap_err(), EncodeError::CapacityExceeded);
    assert!(make_raw_midi_mesg(0, &[0u8; 16]).is_ok());
}

#[test]
fn sysex_text_frame_layout() {
    let f = make_sysex_mesg(3, 2, 2, b"AB").unwrap();
    let pos = ((2 - 1) + (2 - 1) * 8) * 7;
    assert_eq!(f.time, 3);
    assert_eq!(f.data[..10], [0xF0, 0x00, 0x00, 0x66, 0x14, 0x12, pos, b'A', b'B', 0xF7]);
    assert!(f.data[10..].iter().all(|b| *b == 0));
    assert_eq!(f.data.len(), MAX_MIDI_MSG_SIZE);
}

#[test]
fn sysex_text_too_long_is_refused() {
    assert_eq!(make_sysex_mesg(0, 1, 1, b"ABCDEFGHI").unwrap_err(), EncodeError::CapacityExceeded);
    let f = make_sysex_mesg(0, 1, 1, b"ABCDEFGH").unwrap();
    assert_eq!(f.data[15], 0xF7);
}

#[test]
fn connect_sequence_frames() {
    let frames = initialize_mc_device();
    assert_eq!(frames.len(), 12);
    for (i, f) in frames.iter().take(11).enumerate() {
        assert_eq!(f.time, 0);
        assert_eq!(f.data[..3], [0xE0 + i as u8, 0x7F, 0x7F]);
    }
    let last = &frames[11];
    assert_eq!(last.time, 1000);
    assert_eq!(last.data[..12], [0xF0, 0x00, 0x00, 0x66, 0x14, 0x12, 0x00, b'T', b'E', b'S', b'T', 0xF7]);
}
