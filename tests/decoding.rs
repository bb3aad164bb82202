use midi_surface::decode::{
    get_note_name, get_octave, note_label, process_midi_mesg, Condition, Diagnostic, Level, MesgKind, MidiMesg,
    NoteLabel, PairingState, PendingPair,
};
use midi_surface::frame::RawFrame;
use midi_surface::trigger::default_triggers;

fn frame(bytes: &[u8]) -> RawFrame {
    RawFrame { time: 0, data: bytes.to_vec() }
}

fn decode(frames: &[&[u8]]) -> midi_surface::decode::MidiProcess {
    let mut state = PairingState::new();
    let table = default_triggers();
    let events: Vec<RawFrame> = frames.iter().map(|b| frame(b)).collect();
    process_midi_mesg(&mut state, &table, &events, 0)
}

const TABLE: [&str; 12] = ["A", "A#", "B", "C", "C#", "D", "D#", "E", "F", "F#", "G", "G#"];

#[test]
fn every_piano_note_is_named_from_the_table() {
    for note in 21u8..=108 {
        let name = get_note_name(note).unwrap();
        let octave = get_octave(note).unwrap();
        assert_eq!(name, TABLE[((note - 21) % 12) as usize]);
        assert_eq!(octave, note / 12 - 1);
    }
}

#[test]
fn note_21_is_a0() {
    assert_eq!(get_note_name(21), Some("A"));
    assert_eq!(get_octave(21), Some(0));
    assert_eq!(note_label(21), NoteLabel::Named { pitch: 0, octave: 0 });
    assert_eq!(get_note_name(60), Some("C"));
    assert_eq!(get_octave(60), Some(4));
    assert_eq!(get_note_name(108), Some("C"));
    assert_eq!(get_octave(108), Some(8));
}

#[test]
fn notes_outside_the_range_keep_their_number() {
    assert_eq!(note_label(20), NoteLabel::Number(20));
    assert_eq!(note_label(109), NoteLabel::Number(109));
    assert_eq!(get_note_name(0), None);
    assert_eq!(get_octave(127), None);
    let r = decode(&[&[0x90, 0x05, 0x40]]);
    assert_eq!(
        r.result[0],
        vec![MidiMesg { channel: 1, kind: MesgKind::NoteOn(NoteLabel::Number(5)), value: Level::Coarse(0x40) }]
    );
    assert_eq!(r.diagnostics, vec![Diagnostic { index: 0, condition: Condition::OutOfRangeNote }]);
}

#[test]
fn note_on_with_velocity_zero_is_note_off() {
    let r = decode(&[&[0x93, 60, 0], &[0x83, 60, 0x40], &[0x93, 60, 0x7F]]);
    let label = NoteLabel::Named { pitch: 3, octave: 4 };
    assert_eq!(
        r.result[3],
        vec![
            MidiMesg { channel: 4, kind: MesgKind::NoteOff(label), value: Level::Coarse(0) },
            MidiMesg { channel: 4, kind: MesgKind::NoteOff(label), value: Level::Coarse(0) },
            MidiMesg { channel: 4, kind: MesgKind::NoteOn(label), value: Level::Coarse(0x7F) },
        ]
    );
    assert!(r.diagnostics.is_empty());
    assert!(!r.shutdown);
}

#[test]
fn controller_pair_combines_into_one_event() {
    let r = decode(&[&[0xB2, 0x07, 0x40], &[0xB2, 0x27, 0x11]]);
    assert_eq!(
        r.result[2],
        vec![MidiMesg { channel: 3, kind: MesgKind::ControlChange(0x07), value: Level::Fine((0x40 << 7) | 0x11) }]
    );
    for (c, events) in r.result.iter().enumerate() {
        if c != 2 {
            assert!(events.is_empty());
        }
    }
    assert!(r.diagnostics.is_empty());
}

#[test]
fn controller_pair_state_is_clear_after_the_batch() {
    let mut state = PairingState::new();
    let table = default_triggers();
    let events = vec![frame(&[0xB0, 0x01, 0x7F]), frame(&[0xB0, 0x21, 0x7F])];
    let r = process_midi_mesg(&mut state, &table, &events, 0);
    assert_eq!(r.result[0][0].value, Level::Fine(16383));
    assert_eq!(state.pending, None);
}

#[test]
fn pending_half_from_state_completes_low_half() {
    let mut state = PairingState { pending: Some(PendingPair { controller: 0x05, msb: 0x01 }) };
    let table = default_triggers();
    let events = vec![frame(&[0xB0, 0x25, 0x02])];
    let r = process_midi_mesg(&mut state, &table, &events, 0);
    assert_eq!(
        r.result[0],
        vec![MidiMesg { channel: 1, kind: MesgKind::ControlChange(0x05), value: Level::Fine(130) }]
    );
    assert_eq!(state.pending, None);
}

#[test]
fn controller_pair_in_reverse_order_stays_apart() {
    let r = decode(&[&[0xB0, 0x27, 0x11], &[0xB0, 0x07, 0x40]]);
    assert_eq!(
        r.result[0],
        vec![
            MidiMesg { channel: 1, kind: MesgKind::ControlChange(0x27), value: Level::Coarse(0x11) },
            MidiMesg { channel: 1, kind: MesgKind::ControlChange(0x07), value: Level::Coarse(0x40) },
        ]
    );
    assert_eq!(r.diagnostics, vec![Diagnostic { index: 0, condition: Condition::OrderingViolation }]);
}

#[test]
fn controller_pair_on_two_channels_stays_apart() {
    let r = decode(&[&[0xB0, 0x07, 0x40], &[0xB1, 0x27, 0x11]]);
    assert_eq!(
        r.result[0],
        vec![MidiMesg { channel: 1, kind: MesgKind::ControlChange(0x07), value: Level::Coarse(0x40) }]
    );
    assert_eq!(
        r.result[1],
        vec![MidiMesg { channel: 2, kind: MesgKind::ControlChange(0x27), value: Level::Coarse(0x11) }]
    );
    assert_eq!(r.diagnostics, vec![Diagnostic { index: 1, condition: Condition::OrderingViolation }]);
}

#[test]
fn high_half_as_last_frame_is_standalone() {
    let r = decode(&[&[0xB5, 0x10, 0x22]]);
    assert_eq!(
        r.result[5],
        vec![MidiMesg { channel: 6, kind: MesgKind::ControlChange(0x10), value: Level::Coarse(0x22) }]
    );
}

#[test]
fn plain_and_unknown_controllers() {
    let r = decode(&[&[0xB0, 0x40, 0x7F], &[0xB0, 0x61, 0x01], &[0xB0, 0x62, 0x01], &[0xB0, 0x7B, 0x00]]);
    assert_eq!(
        r.result[0],
        vec![
            MidiMesg { channel: 1, kind: MesgKind::ControlChange(0x40), value: Level::Coarse(0x7F) },
            MidiMesg { channel: 1, kind: MesgKind::ControlChange(0x61), value: Level::Coarse(0x01) },
        ]
    );
    assert_eq!(
        r.diagnostics,
        vec![
            Diagnostic { index: 2, condition: Condition::UnknownController },
            Diagnostic { index: 3, condition: Condition::UnknownController },
        ]
    );
}

#[test]
fn pitch_bend_extremes() {
    let r = decode(&[&[0xE0, 0x00, 0x00], &[0xE0, 0x7F, 0x7F], &[0xE0, 0x00, 0x40]]);
    assert_eq!(
        r.result[0],
        vec![
            MidiMesg { channel: 1, kind: MesgKind::PitchBend, value: Level::Fine(0) },
            MidiMesg { channel: 1, kind: MesgKind::PitchBend, value: Level::Fine(16383) },
            MidiMesg { channel: 1, kind: MesgKind::PitchBend, value: Level::Fine(8192) },
        ]
    );
}

#[test]
fn pressure_messages() {
    let r = decode(&[&[0xA9, 69, 0x30], &[0xD9, 0x50]]);
    assert_eq!(
        r.result[9],
        vec![
            MidiMesg {
                channel: 10,
                kind: MesgKind::PolyPressure(NoteLabel::Named { pitch: 0, octave: 4 }),
                value: Level::Coarse(0x30)
            },
            MidiMesg { channel: 10, kind: MesgKind::ChannelPressure, value: Level::Coarse(0x50) },
        ]
    );
}

#[test]
fn panic_frame_halts_the_batch() {
    let r = decode(&[&[0x90, 69, 0x40], &[0xFF], &[0x90, 70, 0x40]]);
    assert!(r.shutdown);
    assert_eq!(
        r.result[0],
        vec![MidiMesg {
            channel: 1,
            kind: MesgKind::NoteOn(NoteLabel::Named { pitch: 0, octave: 4 }),
            value: Level::Coarse(0x40)
        }]
    );
    let total: usize = r.result.iter().map(|c| c.len()).sum();
    assert_eq!(total, 1);
}

#[test]
fn panic_frame_stops_triggers_after_it() {
    let r = decode(&[&[0xB0, 0x3C, 0x01], &[0xFF, 0x00], &[0xB0, 0x3C, 0x41]]);
    assert!(r.shutdown);
    assert_eq!(r.to_send.len(), 1);
    assert_eq!(r.to_send[0].data[..3], [0xE0, 0x00, 0x00]);
}

#[test]
fn unterminated_sysex_is_flagged_not_fatal() {
    let r = decode(&[&[0xF0, 0x00, 0x00, 0x66, 0x14]]);
    assert!(!r.shutdown);
    assert_eq!(r.diagnostics, vec![Diagnostic { index: 0, condition: Condition::MalformedSysex }]);
    let ok = decode(&[&[0xF0, 0x00, 0x66, 0xF7]]);
    assert!(ok.diagnostics.is_empty());
    assert!(!ok.shutdown);
}

#[test]
fn other_conditions() {
    let r = decode(&[&[0xC0, 0x05], &[0x70, 0x01, 0x02], &[0x90, 0x40], &[]]);
    assert_eq!(
        r.diagnostics,
        vec![
            Diagnostic { index: 0, condition: Condition::ProgramChangeIgnored },
            Diagnostic { index: 1, condition: Condition::UnknownStatusFamily },
            Diagnostic { index: 2, condition: Condition::ShortFrame },
            Diagnostic { index: 3, condition: Condition::ShortFrame },
        ]
    );
    assert!(r.result.iter().all(|c| c.is_empty()));
    assert_eq!(r.result.len(), 16);
}
