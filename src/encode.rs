use vstd::prelude::*;
use crate::frame::{make_raw_midi_mesg, padded, EncodeError, RawFrame, MAX_MIDI_MSG_SIZE};

verus! {

/// A normalized value `num / den` in `[0, 1]`.
#[derive(Debug, Clone, Copy, PartialEq, Eq, Structural)]
pub struct Ratio {
    pub num: u32,
    pub den: u32,
}

impl Ratio {
    pub open spec fn wf(&self) -> bool {
        0 < self.den && self.num <= self.den
    }
}

/// Largest value a 14-bit field holds.
pub const MAX_14_BIT: u16 = 16383;

/// `num / den` scaled to 14 bits and rounded to nearest (halves up), then
/// held at the largest 14-bit value so that `1.0` stays representable.
pub open spec fn raw14_of(v: Ratio) -> int {
    let r = (2 * v.num * 16384 + v.den) / (2 * v.den as int);
    if r > MAX_14_BIT as int { MAX_14_BIT as int } else { r }
}

/// The 14-bit value that a low and a high 7-bit byte carry: `(msb << 7) | lsb`.
pub open spec fn combine14(lsb: u8, msb: u8) -> u16 {
    ((msb as u16) << 7u16) | (lsb as u16)
}

/// The `(lsb, msb)` wire bytes of a normalized value: the MIDI-standard
/// 7-bit/7-bit split of its 14-bit scaling.
pub fn convert_value_to_lsb_msb(value: Ratio) -> (r: [u8; 2])
    requires
        value.wf(),
    ensures
        r@[0] as int == raw14_of(value) % 128,
        r@[1] as int == raw14_of(value) / 128,
        r@[0] < 128 && r@[1] < 128,
{
    let scaled: u64 = (2 * (value.num as u64) * 16384 + value.den as u64) / (2 * value.den as u64);
    proof {
        let n = value.num as int;
        let d = value.den as int;
        assert(scaled == (2 * n * 16384 + d) / (2 * d));
        assert(2 * n * 16384 + d < (2 * d) * 16385) by (nonlinear_arith)
            requires
                n <= d,
                0 < d,
        ;
        assert(scaled <= 16384) by (nonlinear_arith)
            requires
                scaled == (2 * n * 16384 + d) / (2 * d),
                2 * n * 16384 + d < (2 * d) * 16385,
                0 < d,
        ;
    }
    let raw: u16 = if scaled > MAX_14_BIT as u64 { MAX_14_BIT } else { scaled as u16 };
    let lsb: u8 = (raw & 0x7F) as u8;
    let msb: u8 = ((raw >> 7u16) & 0x7F) as u8;
    assert(raw & 0x7F == raw % 128 && (raw >> 7u16) & 0x7F == raw / 128) by (bit_vector)
        requires
            raw <= 16383,
    ;
    [lsb, msb]
}

/// Encoding a normalized value to wire bytes and combining them again gives
/// back the value to within `1 / 16384`.
pub proof fn lemma_wire_round_trip(value: Ratio)
    requires
        value.wf(),
    ensures
        ({
            let raw = raw14_of(value);
            let back = combine14((raw % 128) as u8, (raw / 128) as u8) as int;
            -(value.den as int) <= back * value.den - value.num * 16384 <= value.den
        }),
{
    let n = value.num as int;
    let d = value.den as int;
    let q = (2 * n * 16384 + d) / (2 * d);
    assert(q * (2 * d) <= 2 * n * 16384 + d < q * (2 * d) + 2 * d) by (nonlinear_arith)
        requires
            q == (2 * n * 16384 + d) / (2 * d),
            d > 0,
    ;
    assert(q <= 16384) by (nonlinear_arith)
        requires
            q * (2 * d) <= 2 * n * 16384 + d,
            n <= d,
            d > 0,
    ;
    let raw = raw14_of(value);
    assert(0 <= raw <= 16383);
    let lo = (raw % 128) as u8;
    let hi = (raw / 128) as u8;
    assert(combine14(lo, hi) as int == raw) by {
        let r16 = raw as u16;
        assert(((((r16 / 128) as u8) as u16) << 7u16) | (((r16 % 128) as u8) as u16) == r16)
            by (bit_vector)
            requires
                r16 <= 16383,
        ;
    }
    if q > 16383 {
        assert(raw == 16383);
        assert(raw * d - n * 16384 <= d && raw * d - n * 16384 >= -d) by (nonlinear_arith)
            requires
                q == 16384,
                raw == 16383,
                q * (2 * d) <= 2 * n * 16384 + d,
                n <= d,
                d > 0,
        ;
    } else {
        assert(raw == q);
        assert(raw * d - n * 16384 <= d && raw * d - n * 16384 >= -d) by (nonlinear_arith)
            requires
                raw == q,
                q * (2 * d) <= 2 * n * 16384 + d < q * (2 * d) + 2 * d,
                d > 0,
        ;
    }
}


/// Number of pitch-bend controls that the connect sequence resets.
pub const RESET_CHANNELS: u8 = 11;

/// Text of the descriptive sysex frame of the connect sequence: "TEST".
pub open spec fn connect_text() -> Seq<u8> {
    seq![0x54u8, 0x45u8, 0x53u8, 0x54u8]
}

/// Longest text that one sysex text frame carries.
pub const MAX_SYSEX_TEXT: usize = MAX_MIDI_MSG_SIZE - 8;

/// Display offset of line `line_num` of display `lcd_num` (both from 1).
pub open spec fn sysex_position(lcd_num: u8, line_num: u8) -> int {
    ((lcd_num - 1) + (line_num - 1) * 8) * 7
}

/// The bytes of a sysex text frame, before padding.
pub open spec fn sysex_payload(position: u8, text: Seq<u8>) -> Seq<u8> {
    seq![0xF0u8, 0x00u8, 0x00u8, 0x66u8, 0x14u8, 0x12u8, position] + text + seq![0xF7u8]
}

/// Builds a sysex frame that writes `text` at a display position; a text longer
/// than what fits in one frame is refused.
pub fn make_sysex_mesg(time: u32, lcd_num: u8, line_num: u8, text: &[u8]) -> (r: Result<RawFrame, EncodeError>)
    requires
        1 <= lcd_num,
        1 <= line_num,
        sysex_position(lcd_num, line_num) <= 255,
    ensures
        text@.len() > MAX_SYSEX_TEXT <==> r is Err,
        r is Err ==> r == Err::<RawFrame, EncodeError>(EncodeError::CapacityExceeded),
        r is Ok ==> r->Ok_0@ == (time, padded(sysex_payload(sysex_position(lcd_num, line_num) as u8, text@))),
{
    if text.len() > MAX_SYSEX_TEXT {
        return Err(EncodeError::CapacityExceeded);
    }
    let position: u8 = (((lcd_num - 1) as u32 + ((line_num - 1) as u32) * 8) * 7) as u8;
    let mut payload: Vec<u8> = vec![0xF0, 0x00, 0x00, 0x66, 0x14, 0x12, position];
    let mut i: usize = 0;
    while i < text.len()
        invariant
            i <= text@.len(),
            payload@ =~= seq![0xF0u8, 0x00u8, 0x00u8, 0x66u8, 0x14u8, 0x12u8, position] + text@.subrange(0, i as int),
        decreases text@.len() - i,
    {
        payload.push(text[i]);
        i += 1;
        assert(payload@ =~= seq![0xF0u8, 0x00u8, 0x00u8, 0x66u8, 0x14u8, 0x12u8, position] + text@.subrange(0, i as int));
    }
    payload.push(0xF7);
    assert(text@.subrange(0, text@.len() as int) =~= text@);
    assert(payload@ =~= sysex_payload(position, text@));
    make_raw_midi_mesg(time, payload.as_slice())
}

/// The pitch-bend reset frame of control `index` in the connect sequence.
pub open spec fn reset_frame(index: int) -> (u32, Seq<u8>) {
    (0u32, padded(seq![(0xE0 + index) as u8, 0x7Fu8, 0x7Fu8]))
}

/// The canned frames that bring a control surface to a known state when a
/// stream starts: each pitch-bend control set to full scale, then one
/// descriptive sysex text frame.
pub open spec fn connect_sequence() -> Seq<(u32, Seq<u8>)> {
    Seq::new(RESET_CHANNELS as nat, |i: int| reset_frame(i)).push(
        (1000u32, padded(sysex_payload(0, connect_text()))),
    )
}

/// Views of a sequence of frames.
pub open spec fn frames_view(frames: Seq<RawFrame>) -> Seq<(u32, Seq<u8>)> {
    frames.map_values(|f: RawFrame| f@)
}

/// The connect sequence, in the order the frames are to be sent.
pub fn initialize_mc_device() -> (r: Vec<RawFrame>)
    ensures
        frames_view(r@) == connect_sequence(),
{
    let time: u32 = 0;
    let full_scale = Ratio { num: 1, den: 1 };
    let value_out = convert_value_to_lsb_msb(full_scale);
    assert(raw14_of(full_scale) == 16383) by {
        assert((32769int) / 2int == 16384);
    }
    let mut out: Vec<RawFrame> = Vec::new();
    let mut pb_idx: u8 = 0;
    while pb_idx < RESET_CHANNELS
        invariant
            pb_idx <= RESET_CHANNELS,
            time == 0,
            value_out@[0] == 0x7F && value_out@[1] == 0x7F,
            frames_view(out@) =~= Seq::new(pb_idx as nat, |i: int| reset_frame(i)),
        decreases RESET_CHANNELS - pb_idx,
    {
        let mesg: [u8; 3] = [0xE0 + pb_idx, value_out[0], value_out[1]];
        let ghost old_out = out@;
        let made = make_raw_midi_mesg(time, mesg.as_slice());
        match made {
            Ok(frame) => {
                assert(mesg@ =~= seq![(0xE0 + pb_idx) as u8, 0x7Fu8, 0x7Fu8]);
                assert(frame@ == reset_frame(pb_idx as int));
                out.push(frame);
                assert(frames_view(out@) =~= frames_view(old_out).push(reset_frame(pb_idx as int)));
            },
            Err(_) => {
                assert(false);
            },
        }
        pb_idx += 1;
        assert(frames_view(out@) =~= Seq::new(pb_idx as nat, |i: int| reset_frame(i)));
    }
    let text: [u8; 4] = [0x54, 0x45, 0x53, 0x54];
    assert(text@ =~= connect_text());
    let sysex = make_sysex_mesg(time + 1000, 1, 1, text.as_slice());
    match sysex {
        Ok(frame) => {
            let ghost old_out = out@;
            out.push(frame);
            assert(frames_view(out@) =~= frames_view(old_out).push(frame@));
        },
        Err(_) => {
            assert(false);
        },
    }
    assert(frames_view(out@) =~= connect_sequence());
    out
}

} // verus!
