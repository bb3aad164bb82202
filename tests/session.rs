use midi_surface::frame::RawFrame;
use midi_surface::params::{select_default_ports, ParamsInitError};
use midi_surface::processor::MidiProcessor;
use midi_surface::trigger::{default_triggers, trigger_midi_events};

fn frame(bytes: &[u8]) -> RawFrame {
    RawFrame { time: 0, data: bytes.to_vec() }
}

#[test]
fn trigger_fires_on_exact_match() {
    let table = default_triggers();
    let out = trigger_midi_events(&table, 9, &[0xB0, 0x3C, 0x41]);
    assert_eq!(out.len(), 1);
    assert_eq!(out[0].time, 9);
    let mut expected = vec![0xE0, 0x33, 0x66];
    expected.resize(16, 0);
    assert_eq!(out[0].data, expected);
    let cw = trigger_midi_events(&table, 0, &[0xB0, 0x3C, 0x01]);
    assert_eq!(cw.len(), 1);
    assert_eq!(cw[0].data[..3], [0xE0, 0x00, 0x00]);
}

#[test]
fn trigger_ignores_other_frames() {
    let table = default_triggers();
    assert!(trigger_midi_events(&table, 0, &[0xB0, 0x3C, 0x42]).is_empty());
    assert!(trigger_midi_events(&table, 0, &[0xB0, 0x3C]).is_empty());
    assert!(trigger_midi_events(&table, 0, &[0xB0, 0x3C, 0x41, 0x00]).is_empty());
    assert!(trigger_midi_events(&table, 0, &[]).is_empty());
}

#[test]
fn session_sends_connect_sequence_first() {
    let mut p = MidiProcessor::new(false);
    p.init();
    let out = p.process(&vec![frame(&[0x90, 60, 0x40])], 5);
    assert_eq!(out.outputs.len(), 13);
    assert_eq!(out.outputs[0].data[0], 0xE0);
    assert_eq!(out.outputs[11].data[0], 0xF0);
    assert_eq!(out.outputs[12].data, vec![0x90, 60, 0x40]);
    assert!(!out.shutdown);
    assert_eq!(out.decoded.unwrap().result[0].len(), 1);
    let next = p.process(&vec![], 5);
    assert!(next.outputs.is_empty());
    assert!(next.decoded.is_none());
}

#[test]
fn session_sends_trigger_frames_then_inputs() {
    let mut p = MidiProcessor::new(false);
    let out = p.process(&vec![frame(&[0xB0, 0x3C, 0x41])], 4);
    assert_eq!(out.outputs.len(), 2);
    assert_eq!(out.outputs[0].time, 4);
    assert_eq!(out.outputs[0].data[..3], [0xE0, 0x33, 0x66]);
    assert_eq!(out.outputs[1].data, vec![0xB0, 0x3C, 0x41]);
}

#[test]
fn session_ends_on_panic_frame() {
    let mut p = MidiProcessor::new(false);
    let out = p.process(&vec![frame(&[0xB0, 0x3C, 0x01]), frame(&[0xFF])], 0);
    assert!(out.shutdown);
    assert_eq!(out.outputs.len(), 1);
    assert!(p.halted);
    let after = p.process(&vec![frame(&[0x90, 60, 0x40])], 0);
    assert!(after.shutdown);
    assert!(after.outputs.is_empty());
}

#[test]
fn ports_are_selected_or_refused() {
    let ins = vec!["in-a".to_string(), "in-b".to_string()];
    let outs = vec!["out-a".to_string()];
    assert_eq!(select_default_ports(&ins, &outs), Ok(("in-a".to_string(), "out-a".to_string())));
    assert_eq!(select_default_ports(&vec![], &outs), Err(ParamsInitError::MidiDeviceNotFound));
    assert_eq!(select_default_ports(&ins, &vec![]), Err(ParamsInitError::MidiDeviceNotFound));
    assert_eq!(ParamsInitError::MidiDeviceNotFound.message(), "No midi device found");
}
