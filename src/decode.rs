use vstd::prelude::*;
use crate::encode::combine14;
use crate::frame::RawFrame;
use crate::trigger::{trigger_midi_events, triggered_by, RuleView, TriggerTable};

verus! {

/// Number of MIDI channels; a decoded batch holds one event sequence for each.
pub const CHANNELS: usize = 16;

/// The status byte that aborts a batch and ends the session.
pub const PANIC_STATUS: u8 = 0xFF;

/// The name and octave of a note in the supported range, or its raw number.
#[derive(Debug, Clone, Copy, PartialEq, Eq, Structural)]
pub enum NoteLabel {
    /// `pitch` indexes the chromatic table that starts at A.
    Named { pitch: u8, octave: u8 },
    Number(u8),
}

/// Notes 21 (A0) to 108 (C8) are named from a 12-entry chromatic table
/// starting at A, with octave `note / 12 - 1`; others keep their number.
pub open spec fn spec_note_label(note: u8) -> NoteLabel {
    if 21 <= note <= 108 {
        NoteLabel::Named { pitch: ((note - 21) % 12) as u8, octave: (note / 12 - 1) as u8 }
    } else {
        NoteLabel::Number(note)
    }
}

/// The chromatic table, from A.
pub open spec fn chromatic_name(pitch: int) -> Seq<char> {
    if pitch == 0 {
        seq!['A']
    } else if pitch == 1 {
        seq!['A', '#']
    } else if pitch == 2 {
        seq!['B']
    } else if pitch == 3 {
        seq!['C']
    } else if pitch == 4 {
        seq!['C', '#']
    } else if pitch == 5 {
        seq!['D']
    } else if pitch == 6 {
        seq!['D', '#']
    } else if pitch == 7 {
        seq!['E']
    } else if pitch == 8 {
        seq!['F']
    } else if pitch == 9 {
        seq!['F', '#']
    } else if pitch == 10 {
        seq!['G']
    } else {
        seq!['G', '#']
    }
}

/// The label of a note number.
pub fn note_label(note: u8) -> (r: NoteLabel)
    ensures
        r == spec_note_label(note),
{
    if 21 <= note && note <= 108 {
        NoteLabel::Named { pitch: (note - 21) % 12, octave: note / 12 - 1 }
    } else {
        NoteLabel::Number(note)
    }
}

/// The name of a chromatic pitch.
pub fn pitch_name(pitch: u8) -> (r: &'static str)
    requires
        pitch < 12,
    ensures
        r@ == chromatic_name(pitch as int),
{
    proof {
        reveal_strlit("A");
        reveal_strlit("A#");
        reveal_strlit("B");
        reveal_strlit("C");
        reveal_strlit("C#");
        reveal_strlit("D");
        reveal_strlit("D#");
        reveal_strlit("E");
        reveal_strlit("F");
        reveal_strlit("F#");
        reveal_strlit("G");
        reveal_strlit("G#");
    }
    match pitch {
        0 => "A",
        1 => "A#",
        2 => "B",
        3 => "C",
        4 => "C#",
        5 => "D",
        6 => "D#",
        7 => "E",
        8 => "F",
        9 => "F#",
        10 => "G",
        _ => "G#",
    }
}

/// The name of a note in the supported range; `None` for other notes.
pub fn get_note_name(note: u8) -> (r: Option<&'static str>)
    ensures
        r is Some <==> 21 <= note <= 108,
        r is Some ==> r->Some_0@ == chromatic_name((note - 21) % 12),
{
    match note_label(note) {
        NoteLabel::Named { pitch, octave: _ } => Some(pitch_name(pitch)),
        NoteLabel::Number(_) => None,
    }
}

/// The octave of a note in the supported range; `None` for other notes.
pub fn get_octave(note: u8) -> (r: Option<u8>)
    ensures
        r is Some <==> 21 <= note <= 108,
        r is Some ==> r->Some_0 == note / 12 - 1,
{
    match note_label(note) {
        NoteLabel::Named { pitch: _, octave } => Some(octave),
        NoteLabel::Number(_) => None,
    }
}

/// A normalized level: a 7-bit value over 127 or a 14-bit value over 16384.
#[derive(Debug, Clone, Copy, PartialEq, Eq, Structural)]
pub enum Level {
    Coarse(u8),
    Fine(u16),
}

impl Level {
    pub open spec fn numerator(self) -> int {
        match self {
            Level::Coarse(v) => v as int,
            Level::Fine(v) => v as int,
        }
    }

    pub open spec fn denominator(self) -> int {
        match self {
            Level::Coarse(_) => 127,
            Level::Fine(_) => 16384,
        }
    }
}

/// What a decoded event is.
#[derive(Debug, Clone, Copy, PartialEq, Eq, Structural)]
pub enum MesgKind {
    NoteOn(NoteLabel),
    NoteOff(NoteLabel),
    PolyPressure(NoteLabel),
    /// A controller, by number; for a combined 14-bit pair, the number of its high half.
    ControlChange(u8),
    ChannelPressure,
    PitchBend,
}

/// A decoded event on a channel (1 to 16).
#[derive(Debug, Clone, Copy, PartialEq, Eq, Structural)]
pub struct MidiMesg {
    pub channel: u8,
    pub kind: MesgKind,
    pub value: Level,
}

/// A recoverable condition met while decoding a frame.
#[derive(Debug, Clone, Copy, PartialEq, Eq, Structural)]
pub enum Condition {
    /// A sysex frame without its 0xF7 terminator.
    MalformedSysex,
    /// A status byte of no known family.
    UnknownStatusFamily,
    /// The low half of a 14-bit controller pair without its high half before it.
    OrderingViolation,
    /// A note outside the named range; its number is reported instead.
    OutOfRangeNote,
    /// A program change, which is recognized and not acted on.
    ProgramChangeIgnored,
    /// A controller number that is neither part of a pair nor a plain controller.
    UnknownController,
    /// A frame shorter than its family needs.
    ShortFrame,
}

/// A condition and the index of the frame that raised it.
#[derive(Debug, Clone, Copy, PartialEq, Eq, Structural)]
pub struct Diagnostic {
    pub index: usize,
    pub condition: Condition,
}

/// The high half of a 14-bit controller pair, waiting for its low half.
#[derive(Debug, Clone, Copy, PartialEq, Eq, Structural)]
pub struct PendingPair {
    pub controller: u8,
    pub msb: u8,
}

/// The decoder's state between frames.
#[derive(Debug, Clone, Copy, PartialEq, Eq, Structural)]
pub struct PairingState {
    pub pending: Option<PendingPair>,
}

impl PairingState {
    /// A state with no pair pending.
    pub fn new() -> (r: PairingState)
        ensures
            r.pending is None,
    {
        PairingState { pending: None }
    }
}

pub open spec fn family(status: u8) -> u8 {
    status & 0xF0
}

pub open spec fn channel_of(status: u8) -> u8 {
    ((status & 0x0F) + 1) as u8
}

/// The shortest frame that a family's message fits in.
pub open spec fn needed_len(fam: u8) -> nat {
    if fam == 0x80 || fam == 0x90 || fam == 0xA0 || fam == 0xB0 || fam == 0xE0 {
        3
    } else if fam == 0xC0 || fam == 0xD0 {
        2
    } else {
        1
    }
}

/// `next` is the low half that completes the high-half controller frame `cur`.
pub open spec fn is_cc_sibling(cur: Seq<u8>, next: Seq<u8>) -> bool {
    &&& next.len() >= 3
    &&& family(next[0]) == 0xB0
    &&& channel_of(next[0]) == channel_of(cur[0])
    &&& next[1] == cur[1] + 0x20
}

/// What decoding one frame does.
pub struct Step {
    pub pending: Option<PendingPair>,
    pub mesg: Option<MidiMesg>,
    pub condition: Option<Condition>,
}

/// A note-on with velocity 0, or any note-off, is a note-off at level 0.
pub open spec fn note_event(fam: u8, channel: u8, note: u8, velocity: u8) -> MidiMesg {
    if fam == 0x80 || velocity == 0 {
        MidiMesg { channel, kind: MesgKind::NoteOff(spec_note_label(note)), value: Level::Coarse(0) }
    } else {
        MidiMesg { channel, kind: MesgKind::NoteOn(spec_note_label(note)), value: Level::Coarse(velocity) }
    }
}

pub open spec fn note_condition(note: u8) -> Option<Condition> {
    if spec_note_label(note) is Number {
        Some(Condition::OutOfRangeNote)
    } else {
        None
    }
}

pub open spec fn cc_event(channel: u8, controller: u8, value: Level) -> MidiMesg {
    MidiMesg { channel, kind: MesgKind::ControlChange(controller), value }
}

/// Decoding a complete control-change frame, the `i`th of `frames`.
pub open spec fn decode_cc(pending: Option<PendingPair>, frames: Seq<Seq<u8>>, i: int) -> Step {
    let f = frames[i];
    let channel = channel_of(f[0]);
    let num = f[1];
    let value = f[2];
    if num <= 0x1F {
        if i + 1 < frames.len() && is_cc_sibling(f, frames[i as int + 1]) {
            Step { pending: Some(PendingPair { controller: num, msb: value }), mesg: None, condition: None }
        } else {
            Step { pending: None, mesg: Some(cc_event(channel, num, Level::Coarse(value))), condition: None }
        }
    } else if num <= 0x3F {
        if pending is Some && pending->Some_0.controller + 0x20 == num {
            Step {
                pending: None,
                mesg: Some(cc_event(channel, pending->Some_0.controller, Level::Fine(combine14(value, pending->Some_0.msb)))),
                condition: None,
            }
        } else {
            Step {
                pending,
                mesg: Some(cc_event(channel, num, Level::Coarse(value))),
                condition: Some(Condition::OrderingViolation),
            }
        }
    } else if num <= 0x61 {
        Step { pending, mesg: Some(cc_event(channel, num, Level::Coarse(value))), condition: None }
    } else {
        Step { pending, mesg: None, condition: Some(Condition::UnknownController) }
    }
}

/// Decoding the `i`th of `frames`, with `pending` left by the frames before it.
pub open spec fn decode_frame(pending: Option<PendingPair>, frames: Seq<Seq<u8>>, i: int) -> Step {
    let f = frames[i];
    if f.len() == 0 {
        Step { pending, mesg: None, condition: Some(Condition::ShortFrame) }
    } else {
        let fam = family(f[0]);
        let channel = channel_of(f[0]);
        if f.len() < needed_len(fam) {
            Step { pending, mesg: None, condition: Some(Condition::ShortFrame) }
        } else if fam == 0x80 || fam == 0x90 {
            Step { pending, mesg: Some(note_event(fam, channel, f[1], f[2])), condition: note_condition(f[1]) }
        } else if fam == 0xA0 {
            Step {
                pending,
                mesg: Some(MidiMesg { channel, kind: MesgKind::PolyPressure(spec_note_label(f[1])), value: Level::Coarse(f[2]) }),
                condition: note_condition(f[1]),
            }
        } else if fam == 0xB0 {
            decode_cc(pending, frames, i)
        } else if fam == 0xC0 {
            Step { pending, mesg: None, condition: Some(Condition::ProgramChangeIgnored) }
        } else if fam == 0xD0 {
            Step { pending, mesg: Some(MidiMesg { channel, kind: MesgKind::ChannelPressure, value: Level::Coarse(f[1]) }), condition: None }
        } else if fam == 0xE0 {
            Step { pending, mesg: Some(MidiMesg { channel, kind: MesgKind::PitchBend, value: Level::Fine(combine14(f[1], f[2])) }), condition: None }
        } else if fam == 0xF0 {
            if f.contains(0xF7) {
                Step { pending, mesg: None, condition: None }
            } else {
                Step { pending, mesg: None, condition: Some(Condition::MalformedSysex) }
            }
        } else {
            Step { pending, mesg: None, condition: Some(Condition::UnknownStatusFamily) }
        }
    }
}


/// Whether a frame holds the 0xF7 terminator.
fn has_terminator(f: &[u8]) -> (r: bool)
    ensures
        r == f@.contains(0xF7),
{
    let mut i: usize = 0;
    while i < f.len()
        invariant
            i <= f@.len(),
            forall|j: int| 0 <= j < i ==> f@[j] != 0xF7,
        decreases f@.len() - i,
    {
        if f[i] == 0xF7 {
            return true;
        }
        i += 1;
    }
    false
}

/// The bytes of each frame.
pub open spec fn frame_bytes(frames: Seq<RawFrame>) -> Seq<Seq<u8>> {
    frames.map_values(|f: RawFrame| f.data@)
}

proof fn lemma_channel_bits(status: u8)
    ensures
        status & 0x0F < 16,
        channel_of(status) as int == (status & 0x0F) as int + 1,
{
    assert(status & 0x0F < 16) by (bit_vector);
}

/// Decodes a complete control-change frame.
fn decode_cc_frame(pending: Option<PendingPair>, events: &Vec<RawFrame>, i: usize) -> (r: (Option<PendingPair>, Option<MidiMesg>, Option<Condition>))
    requires
        i < events@.len(),
        events@[i as int].data@.len() >= 3,
        family(events@[i as int].data@[0]) == 0xB0,
    ensures
        ({
            let st = decode_cc(pending, frame_bytes(events@), i as int);
            r == (st.pending, st.mesg, st.condition)
        }),
{
    let f = &events[i].data;
    let status = f[0];
    proof {
        lemma_channel_bits(status);
    }
    let channel: u8 = (status & 0x0F) + 1;
    let num = f[1];
    let value = f[2];
    if num <= 0x1F {
        let mut sibling = false;
        if i < events.len() - 1 {
            let next = &events[i + 1].data;
            if next.len() >= 3 {
                proof {
                    lemma_channel_bits(next@[0]);
                }
                sibling = next[0] & 0xF0 == 0xB0 && (next[0] & 0x0F) + 1 == channel && next[1] == num + 0x20;
            }
        }
        if sibling {
            (Some(PendingPair { controller: num, msb: value }), None, None)
        } else {
            (None, Some(MidiMesg { channel, kind: MesgKind::ControlChange(num), value: Level::Coarse(value) }), None)
        }
    } else if num <= 0x3F {
        match pending {
            Some(p) if p.controller as u16 + 0x20 == num as u16 => {
                let combined: u16 = ((p.msb as u16) << 7u16) | (value as u16);
                (None, Some(MidiMesg { channel, kind: MesgKind::ControlChange(p.controller), value: Level::Fine(combined) }), None)
            },
            _ => (
                pending,
                Some(MidiMesg { channel, kind: MesgKind::ControlChange(num), value: Level::Coarse(value) }),
                Some(Condition::OrderingViolation),
            ),
        }
    } else if num <= 0x61 {
        (pending, Some(MidiMesg { channel, kind: MesgKind::ControlChange(num), value: Level::Coarse(value) }), None)
    } else {
        (pending, None, Some(Condition::UnknownController))
    }
}

/// Decodes the `i`th frame, with `pending` left by the frames before it.
fn decode_one(pending: Option<PendingPair>, events: &Vec<RawFrame>, i: usize) -> (r: (Option<PendingPair>, Option<MidiMesg>, Option<Condition>))
    requires
        i < events@.len(),
    ensures
        ({
            let st = decode_frame(pending, frame_bytes(events@), i as int);
            r == (st.pending, st.mesg, st.condition)
        }),
{
    let f = &events[i].data;
    assert(frame_bytes(events@)[i as int] == f@);
    if f.len() == 0 {
        return (pending, None, Some(Condition::ShortFrame));
    }
    let status = f[0];
    proof {
        lemma_channel_bits(status);
    }
    let fam: u8 = status & 0xF0;
    let channel: u8 = (status & 0x0F) + 1;
    let needed: usize = if fam == 0x80 || fam == 0x90 || fam == 0xA0 || fam == 0xB0 || fam == 0xE0 {
        3
    } else if fam == 0xC0 || fam == 0xD0 {
        2
    } else {
        1
    };
    if f.len() < needed {
        return (pending, None, Some(Condition::ShortFrame));
    }
    if fam == 0x80 || fam == 0x90 {
        let label = note_label(f[1]);
        let condition = match label {
            NoteLabel::Number(_) => Some(Condition::OutOfRangeNote),
            _ => None,
        };
        if fam == 0x80 || f[2] == 0 {
            (pending, Some(MidiMesg { channel, kind: MesgKind::NoteOff(label), value: Level::Coarse(0) }), condition)
        } else {
            (pending, Some(MidiMesg { channel, kind: MesgKind::NoteOn(label), value: Level::Coarse(f[2]) }), condition)
        }
    } else if fam == 0xA0 {
        let label = note_label(f[1]);
        let condition = match label {
            NoteLabel::Number(_) => Some(Condition::OutOfRangeNote),
            _ => None,
        };
        (pending, Some(MidiMesg { channel, kind: MesgKind::PolyPressure(label), value: Level::Coarse(f[2]) }), condition)
    } else if fam == 0xB0 {
        decode_cc_frame(pending, events, i)
    } else if fam == 0xC0 {
        (pending, None, Some(Condition::ProgramChangeIgnored))
    } else if fam == 0xD0 {
        (pending, Some(MidiMesg { channel, kind: MesgKind::ChannelPressure, value: Level::Coarse(f[1]) }), None)
    } else if fam == 0xE0 {
        let combined: u16 = ((f[2] as u16) << 7u16) | (f[1] as u16);
        (pending, Some(MidiMesg { channel, kind: MesgKind::PitchBend, value: Level::Fine(combined) }), None)
    } else if fam == 0xF0 {
        if has_terminator(f.as_slice()) {
            (pending, None, None)
        } else {
            (pending, None, Some(Condition::MalformedSysex))
        }
    } else {
        (pending, None, Some(Condition::UnknownStatusFamily))
    }
}


/// The decoder's account of a batch, after some of its frames.
pub struct DecodeState {
    pub pending: Option<PendingPair>,
    /// The events of each channel, channel 1 first, in arrival order.
    pub channels: Seq<Seq<MidiMesg>>,
    pub diagnostics: Seq<Diagnostic>,
    /// The frames that the trigger rules sent, in order.
    pub sent: Seq<Seq<u8>>,
    /// A panic frame was met: the rest of the batch is not looked at.
    pub halted: bool,
}

pub open spec fn initial_state(pending: Option<PendingPair>) -> DecodeState {
    DecodeState {
        pending,
        channels: Seq::new(CHANNELS as nat, |c: int| Seq::<MidiMesg>::empty()),
        diagnostics: seq![],
        sent: seq![],
        halted: false,
    }
}

pub open spec fn is_panic(f: Seq<u8>) -> bool {
    f.len() > 0 && f[0] == PANIC_STATUS
}

/// `s` after the `i`th frame is decoded and checked against the rules.
pub open spec fn apply_step(s: DecodeState, rules: Seq<RuleView>, frames: Seq<Seq<u8>>, i: int) -> DecodeState {
    let st = decode_frame(s.pending, frames, i);
    DecodeState {
        pending: st.pending,
        channels: match st.mesg {
            Some(m) => s.channels.update(m.channel - 1, s.channels[m.channel - 1].push(m)),
            None => s.channels,
        },
        diagnostics: match st.condition {
            Some(c) => s.diagnostics.push(Diagnostic { index: i as usize, condition: c }),
            None => s.diagnostics,
        },
        sent: s.sent + triggered_by(rules, frames[i]),
        halted: false,
    }
}

/// The account of a batch after its first `n` frames.
pub open spec fn decode_prefix(rules: Seq<RuleView>, init: Option<PendingPair>, frames: Seq<Seq<u8>>, n: nat) -> DecodeState
    decreases n,
{
    if n == 0 {
        initial_state(init)
    } else {
        let s = decode_prefix(rules, init, frames, (n - 1) as nat);
        if s.halted {
            s
        } else if is_panic(frames[n - 1]) {
            DecodeState { halted: true, ..s }
        } else {
            apply_step(s, rules, frames, n - 1)
        }
    }
}

/// The account of a whole batch.
pub open spec fn decode_batch(rules: Seq<RuleView>, init: Option<PendingPair>, frames: Seq<Seq<u8>>) -> DecodeState {
    decode_prefix(rules, init, frames, frames.len())
}

/// Once a batch has halted, later frames change nothing.
pub proof fn lemma_halted_stays(rules: Seq<RuleView>, init: Option<PendingPair>, frames: Seq<Seq<u8>>, m: nat, n: nat)
    requires
        m <= n,
        decode_prefix(rules, init, frames, m).halted,
    ensures
        decode_prefix(rules, init, frames, n) == decode_prefix(rules, init, frames, m),
    decreases n - m,
{
    if m < n {
        lemma_halted_stays(rules, init, frames, m, (n - 1) as nat);
    }
}

/// The decoded batch.
pub struct MidiProcess {
    /// The events of each channel, channel 1 first, in arrival order.
    pub result: Vec<Vec<MidiMesg>>,
    /// The frames that the trigger rules sent.
    pub to_send: Vec<RawFrame>,
    pub diagnostics: Vec<Diagnostic>,
    /// A panic frame was met: the session is to end.
    pub shutdown: bool,
}

impl MidiProcess {
    /// `self` holds the account `d`, its sent frames stamped with `time`.
    pub open spec fn holds(&self, d: DecodeState, time: u32) -> bool {
        &&& self.result@.len() == CHANNELS
        &&& forall|c: int| 0 <= c < CHANNELS ==> (#[trigger] self.result@[c])@ == d.channels[c]
        &&& self.diagnostics@ == d.diagnostics
        &&& self.to_send@.len() == d.sent.len()
        &&& forall|k: int| 0 <= k < self.to_send@.len() ==> (#[trigger] self.to_send@[k])@ == (time, d.sent[k])
        &&& self.shutdown == d.halted
    }
}

/// Decodes a batch of frames in arrival order into per-channel events, and
/// collects the frames that the trigger rules send for them, stamped with
/// `time`. A frame whose first byte is 0xFF halts the batch: neither it nor
/// any later frame is looked at, and `shutdown` is set. `state` carries a
/// pending 14-bit controller half from one call to the next.
pub fn process_midi_mesg(state: &mut PairingState, table: &TriggerTable, events: &Vec<RawFrame>, time: u32) -> (r: MidiProcess)
    requires
        table.wf(),
    ensures
        ({
            let d = decode_batch(table@, old(state).pending, frame_bytes(events@));
            &&& r.holds(d, time)
            &&& final(state).pending == d.pending
        }),
{
    let ghost rules = table@;
    let ghost init = state.pending;
    let ghost frames = frame_bytes(events@);
    let mut result: Vec<Vec<MidiMesg>> = Vec::new();
    let mut c: usize = 0;
    while c < CHANNELS
        invariant
            c <= CHANNELS,
            result@.len() == c,
            forall|k: int| 0 <= k < c ==> (#[trigger] result@[k])@ == Seq::<MidiMesg>::empty(),
        decreases CHANNELS - c,
    {
        result.push(Vec::new());
        c += 1;
    }
    let mut to_send: Vec<RawFrame> = Vec::new();
    let mut diagnostics: Vec<Diagnostic> = Vec::new();
    let mut idx: usize = 0;
    while idx < events.len()
        invariant
            table.wf(),
            rules == table@,
            init == old(state).pending,
            frames == frame_bytes(events@),
            idx <= events@.len(),
            ({
                let d = decode_prefix(rules, init, frames, idx as nat);
                &&& !d.halted
                &&& d.channels.len() == CHANNELS
                &&& state.pending == d.pending
                &&& result@.len() == CHANNELS
                &&& forall|k: int| 0 <= k < CHANNELS ==> (#[trigger] result@[k])@ == d.channels[k]
                &&& diagnostics@ == d.diagnostics
                &&& to_send@.len() == d.sent.len()
                &&& forall|k: int| 0 <= k < to_send@.len() ==> (#[trigger] to_send@[k])@ == (time, d.sent[k])
            }),
        decreases events@.len() - idx,
    {
        let ghost before = decode_prefix(rules, init, frames, idx as nat);
        let data = &events[idx].data;
        assert(frames[idx as int] == data@);
        if data.len() > 0 && data[0] == PANIC_STATUS {
            proof {
                assert(frames.len() == events@.len());
                assert(decode_prefix(rules, init, frames, (idx + 1) as nat) == DecodeState { halted: true, ..before });
                lemma_halted_stays(rules, init, frames, (idx + 1) as nat, frames.len());
            }
            let r = MidiProcess { result, to_send, diagnostics, shutdown: true };
            proof {
                let d = decode_batch(rules, init, frames);
                assert(d == DecodeState { halted: true, ..before });
                assert(r.holds(d, time));
                assert(state.pending == d.pending);
            }
            return r;
        }
        let triggered = trigger_midi_events(table, time, data.as_slice());
        let ghost sent_before = to_send@;
        let mut t: usize = 0;
        while t < triggered.len()
            invariant
                t <= triggered@.len(),
                triggered@.len() == triggered_by(rules, frames[idx as int]).len(),
                forall|k: int| 0 <= k < triggered@.len() ==> (#[trigger] triggered@[k])@ == (time, triggered_by(rules, frames[idx as int])[k]),
                to_send@.len() == sent_before.len() + t,
                forall|k: int| 0 <= k < sent_before.len() ==> (#[trigger] to_send@[k]) == sent_before[k],
                forall|k: int| 0 <= k < t ==> (#[trigger] to_send@[sent_before.len() + k])@ == (time, triggered_by(rules, frames[idx as int])[k]),
            decreases triggered@.len() - t,
        {
            to_send.push(crate::frame::copy_frame(&triggered[t]));
            t += 1;
        }
        let ghost result_before = result@;
        let (pending, mesg, condition) = decode_one(state.pending, events, idx);
        state.pending = pending;
        match mesg {
            Some(m) => {
                proof {
                    lemma_channel_bits(events@[idx as int].data@[0]);
                }
                assert(1 <= m.channel <= 16);
                let ci: usize = (m.channel - 1) as usize;
                result[ci].push(m);
                assert(result@[ci as int]@ == result_before[ci as int]@.push(m));
            },
            None => {},
        }
        match condition {
            Some(cond) => {
                diagnostics.push(Diagnostic { index: idx, condition: cond });
            },
            None => {},
        }
        idx += 1;
        proof {
            let d = decode_prefix(rules, init, frames, idx as nat);
            assert(d == apply_step(before, rules, frames, idx - 1));
            assert forall|k: int| 0 <= k < CHANNELS implies (#[trigger] result@[k])@ == d.channels[k] by {
                match mesg {
                    Some(m) => {
                        if k != m.channel - 1 {
                            assert(result@[k] == result_before[k]);
                        }
                    },
                    None => {},
                }
            }
            assert forall|k: int| 0 <= k < to_send@.len() implies (#[trigger] to_send@[k])@ == (time, d.sent[k]) by {
                if k >= sent_before.len() {
                    assert(to_send@[sent_before.len() + (k - sent_before.len())] == to_send@[k]);
                }
            }
        }
    }
    MidiProcess { result, to_send, diagnostics, shutdown: false }
}


proof fn lemma_cc_status(c: u8)
    requires
        c < 16,
    ensures
        family((0xB0 + c) as u8) == 0xB0,
        channel_of((0xB0 + c) as u8) == c + 1,
{
    let st = (0xB0 + c) as u8;
    assert(st & 0xF0 == 0xB0 && st & 0x0F == c) by (bit_vector)
        requires
            c < 16,
            st == 0xB0 + c,
    ;
}

/// A note-on with velocity 0 decodes as a note-off, whether its status is a
/// note-on or a note-off.
pub proof fn lemma_zero_velocity_is_note_off(pending: Option<PendingPair>, frames: Seq<Seq<u8>>, i: int)
    requires
        0 <= i < frames.len(),
        frames[i].len() >= 3,
        family(frames[i][0]) == 0x80 || family(frames[i][0]) == 0x90,
        frames[i][2] == 0,
    ensures
        decode_frame(pending, frames, i).mesg == Some(MidiMesg {
            channel: channel_of(frames[i][0]),
            kind: MesgKind::NoteOff(spec_note_label(frames[i][1])),
            value: Level::Coarse(0),
        }),
{
}

/// A high-half controller frame (number `k <= 0x1F`) followed by its low half
/// (`k + 0x20`) on the same channel yields exactly one event, which carries
/// `(msb << 7) | lsb` over 16384, and no condition.
pub proof fn lemma_cc_pair_combines(
    rules: Seq<RuleView>,
    init: Option<PendingPair>,
    frames: Seq<Seq<u8>>,
    i: nat,
    c: u8,
    k: u8,
    msb: u8,
    lsb: u8,
)
    requires
        i + 1 < frames.len(),
        !decode_prefix(rules, init, frames, i).halted,
        c < 16,
        k <= 0x1F,
        frames[i as int] == seq![(0xB0 + c) as u8, k, msb],
        frames[i as int + 1] == seq![(0xB0 + c) as u8, (k + 0x20) as u8, lsb],
    ensures
        ({
            let before = decode_prefix(rules, init, frames, i);
            let after = decode_prefix(rules, init, frames, i + 2);
            &&& !after.halted
            &&& after.pending is None
            &&& after.channels == before.channels.update(
                c as int,
                before.channels[c as int].push(cc_event((c + 1) as u8, k, Level::Fine(combine14(lsb, msb)))),
            )
            &&& after.diagnostics == before.diagnostics
        }),
{
    lemma_cc_status(c);
    let mid = decode_prefix(rules, init, frames, i + 1);
    assert(is_cc_sibling(frames[i as int], frames[i as int + 1]));
    assert(mid.pending == Some(PendingPair { controller: k, msb }));
}

/// The low half of a controller pair arriving before its high half, alone in a
/// fresh batch, yields two plain 7-bit events; the first is flagged as out of
/// order.
pub proof fn lemma_cc_reverse_order(rules: Seq<RuleView>, c: u8, k: u8, msb: u8, lsb: u8)
    requires
        c < 16,
        k <= 0x1F,
    ensures
        ({
            let frames = seq![seq![(0xB0 + c) as u8, (k + 0x20) as u8, lsb], seq![(0xB0 + c) as u8, k, msb]];
            let d = decode_batch(rules, None, frames);
            &&& !d.halted
            &&& d.channels == initial_state(None).channels.update(
                c as int,
                seq![
                    cc_event((c + 1) as u8, (k + 0x20) as u8, Level::Coarse(lsb)),
                    cc_event((c + 1) as u8, k, Level::Coarse(msb)),
                ],
            )
            &&& d.diagnostics == seq![Diagnostic { index: 0, condition: Condition::OrderingViolation }]
        }),
{
    lemma_cc_status(c);
    let frames = seq![seq![(0xB0 + c) as u8, (k + 0x20) as u8, lsb], seq![(0xB0 + c) as u8, k, msb]];
    let d = decode_batch(rules, None, frames);
    let d0 = decode_prefix(rules, None, frames, 0);
    assert(d0 == initial_state(None));
    assert(d0.channels[c as int] =~= Seq::<MidiMesg>::empty());
    let d1 = decode_prefix(rules, None, frames, 1);
    assert(d1 == apply_step(d0, rules, frames, 0));
    assert(d1.channels[c as int] =~= seq![cc_event((c + 1) as u8, (k + 0x20) as u8, Level::Coarse(lsb))]);
    assert(d1.pending is None);
    assert(frames.len() == 2);
    assert(d == apply_step(d1, rules, frames, 1));
    assert(decode_frame(None, frames, 1).mesg == Some(cc_event((c + 1) as u8, k, Level::Coarse(msb))));
    assert(d1.channels[c as int].push(cc_event((c + 1) as u8, k, Level::Coarse(msb))) =~= seq![
        cc_event((c + 1) as u8, (k + 0x20) as u8, Level::Coarse(lsb)),
        cc_event((c + 1) as u8, k, Level::Coarse(msb)),
    ]);
    assert(d.channels == d1.channels.update(c as int, d1.channels[c as int].push(cc_event((c + 1) as u8, k, Level::Coarse(msb)))));
    assert(d.channels =~= initial_state(None).channels.update(
        c as int,
        seq![
            cc_event((c + 1) as u8, (k + 0x20) as u8, Level::Coarse(lsb)),
            cc_event((c + 1) as u8, k, Level::Coarse(msb)),
        ],
    ));
    assert(d.diagnostics =~= seq![Diagnostic { index: 0, condition: Condition::OrderingViolation }]);
}

/// A high half and a low half on different channels, alone in a fresh batch,
/// yield two plain 7-bit events; the low half is flagged as out of order.
pub proof fn lemma_cc_split_channels(rules: Seq<RuleView>, a: u8, b: u8, k: u8, msb: u8, lsb: u8)
    requires
        a < 16,
        b < 16,
        a != b,
        k <= 0x1F,
    ensures
        ({
            let frames = seq![seq![(0xB0 + a) as u8, k, msb], seq![(0xB0 + b) as u8, (k + 0x20) as u8, lsb]];
            let d = decode_batch(rules, None, frames);
            &&& !d.halted
            &&& d.channels == initial_state(None).channels
                .update(a as int, seq![cc_event((a + 1) as u8, k, Level::Coarse(msb))])
                .update(b as int, seq![cc_event((b + 1) as u8, (k + 0x20) as u8, Level::Coarse(lsb))])
            &&& d.diagnostics == seq![Diagnostic { index: 1, condition: Condition::OrderingViolation }]
        }),
{
    lemma_cc_status(a);
    lemma_cc_status(b);
    let frames = seq![seq![(0xB0 + a) as u8, k, msb], seq![(0xB0 + b) as u8, (k + 0x20) as u8, lsb]];
    let d = decode_batch(rules, None, frames);
    let d0 = decode_prefix(rules, None, frames, 0);
    assert(d0 == initial_state(None));
    assert(d0.channels[a as int] =~= Seq::<MidiMesg>::empty());
    assert(d0.channels[b as int] =~= Seq::<MidiMesg>::empty());
    let d1 = decode_prefix(rules, None, frames, 1);
    assert(!is_cc_sibling(frames[0], frames[1]));
    assert(d1 == apply_step(d0, rules, frames, 0));
    assert(d1.channels[a as int] =~= seq![cc_event((a + 1) as u8, k, Level::Coarse(msb))]);
    assert(d.channels[b as int] =~= seq![cc_event((b + 1) as u8, (k + 0x20) as u8, Level::Coarse(lsb))]);
    assert(d.channels =~= initial_state(None).channels
        .update(a as int, seq![cc_event((a + 1) as u8, k, Level::Coarse(msb))])
        .update(b as int, seq![cc_event((b + 1) as u8, (k + 0x20) as u8, Level::Coarse(lsb))]));
    assert(d.diagnostics =~= seq![Diagnostic { index: 1, condition: Condition::OrderingViolation }]);
}

/// In a batch `[a, x, b]` where `x` is a panic frame, only `a` is decoded and
/// checked against the rules: the account is that of `[a]` alone, halted.
pub proof fn lemma_panic_halts(rules: Seq<RuleView>, init: Option<PendingPair>, a: Seq<u8>, x: Seq<u8>, b: Seq<u8>)
    requires
        is_panic(x),
    ensures
        decode_batch(rules, init, seq![a, x, b]) == (DecodeState { halted: true, ..decode_batch(rules, init, seq![a]) }),
{
    let frames = seq![a, x, b];
    let alone = seq![a];
    assert(family(PANIC_STATUS) == 0xF0) by (bit_vector);
    assert(decode_frame(init, frames, 0) == decode_frame(init, alone, 0));
    assert(frames[0] == alone[0]);
    assert(decode_prefix(rules, init, frames, 0) == decode_prefix(rules, init, alone, 0));
    assert(decode_prefix(rules, init, frames, 1) == decode_prefix(rules, init, alone, 1));
    let d1 = decode_prefix(rules, init, frames, 1);
    if !d1.halted {
        assert(decode_prefix(rules, init, frames, 2) == DecodeState { halted: true, ..d1 });
    }
    lemma_halted_stays(rules, init, frames, 2, 3);
}

/// A sysex frame without its terminator is flagged as malformed and does not
/// halt the batch.
pub proof fn lemma_unterminated_sysex(rules: Seq<RuleView>, init: Option<PendingPair>, frames: Seq<Seq<u8>>, i: nat)
    requires
        i < frames.len(),
        !decode_prefix(rules, init, frames, i).halted,
        frames[i as int].len() > 0,
        family(frames[i as int][0]) == 0xF0,
        frames[i as int][0] != PANIC_STATUS,
        !frames[i as int].contains(0xF7),
    ensures
        ({
            let before = decode_prefix(rules, init, frames, i);
            let after = decode_prefix(rules, init, frames, i + 1);
            &&& !after.halted
            &&& after.diagnostics == before.diagnostics.push(Diagnostic { index: i as usize, condition: Condition::MalformedSysex })
            &&& after.channels == before.channels
        }),
{
}


/// Each named note has the same chromatic name as the note an octave below
/// it, one octave higher; note 21 is A0.
pub proof fn lemma_octave_step(note: u8)
    requires
        21 <= note <= 96,
    ensures
        ({
            let low = spec_note_label(note);
            let high = spec_note_label((note + 12) as u8);
            &&& low is Named && high is Named
            &&& high->Named_pitch == low->Named_pitch
            &&& high->Named_octave == low->Named_octave + 1
        }),
        spec_note_label(21) == (NoteLabel::Named { pitch: 0, octave: 0 }),
{
}


/// After `n` frames, a pending high half is the `n`th frame's, and the frame
/// after it is its low half.
proof fn lemma_pending_is_followed(rules: Seq<RuleView>, frames: Seq<Seq<u8>>, n: nat)
    requires
        n <= frames.len(),
    ensures
        ({
            let s = decode_prefix(rules, None, frames, n);
            s.pending is Some ==> {
                &&& 1 <= n < frames.len()
                &&& !s.halted
                &&& s.pending->Some_0.controller <= 0x1F
                &&& s.pending->Some_0.controller == frames[n - 1][1]
                &&& is_cc_sibling(frames[n - 1], frames[n as int])
            }
        }),
    decreases n,
{
    if n > 0 {
        let m = (n - 1) as nat;
        lemma_pending_is_followed(rules, frames, m);
        let s = decode_prefix(rules, None, frames, m);
        assert(family(PANIC_STATUS) == 0xF0) by (bit_vector);
        if !s.halted && !is_panic(frames[m as int]) {
            let st = decode_frame(s.pending, frames, m as int);
            if s.pending is Some {
                assert(st.pending is None);
            }
        }
    }
}

/// A batch decoded with no pair pending leaves none pending: a high half is
/// held back only when its low half is the next frame of the same batch.
pub proof fn lemma_batch_leaves_no_pending(rules: Seq<RuleView>, frames: Seq<Seq<u8>>)
    ensures
        decode_batch(rules, None, frames).pending is None,
{
    lemma_pending_is_followed(rules, frames, frames.len());
}

} // verus!
