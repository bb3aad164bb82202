use vstd::prelude::*;
use crate::encode::{convert_value_to_lsb_msb, raw14_of, Ratio};
use crate::frame::{make_raw_midi_mesg, padded, RawFrame};

verus! {

/// A gesture remapping: a frame equal to `pattern` makes one frame with
/// status `status_out` that carries `target` as a 14-bit value.
#[derive(Debug)]
pub struct TriggerRule {
    pub label: &'static str,
    pub pattern: Vec<u8>,
    pub status_out: u8,
    pub target: Ratio,
}

/// What a rule says, as plain values.
pub struct RuleView {
    pub pattern: Seq<u8>,
    pub status_out: u8,
    pub target: Ratio,
}

impl View for TriggerRule {
    type V = RuleView;

    open spec fn view(&self) -> RuleView {
        RuleView { pattern: self.pattern@, status_out: self.status_out, target: self.target }
    }
}

/// The rules that input frames are checked against, in order.
#[derive(Debug)]
pub struct TriggerTable {
    pub rules: Vec<TriggerRule>,
}

impl View for TriggerTable {
    type V = Seq<RuleView>;

    open spec fn view(&self) -> Seq<RuleView> {
        self.rules@.map_values(|r: TriggerRule| r@)
    }
}

impl TriggerTable {
    /// Each rule's target is a normalized value.
    pub open spec fn wf(&self) -> bool {
        forall|k: int| 0 <= k < self@.len() ==> (#[trigger] self@[k]).target.wf()
    }
}

/// The frame a rule sends when it fires.
pub open spec fn rule_output(r: RuleView) -> Seq<u8> {
    padded(seq![r.status_out, (raw14_of(r.target) % 128) as u8, (raw14_of(r.target) / 128) as u8])
}

/// The frames that `rules` send for the input frame `mesg`: one for each rule
/// whose pattern equals `mesg` exactly, in the order of the rules.
pub open spec fn triggered_by(rules: Seq<RuleView>, mesg: Seq<u8>) -> Seq<Seq<u8>>
    decreases rules.len(),
{
    if rules.len() == 0 {
        seq![]
    } else {
        let earlier = triggered_by(rules.drop_last(), mesg);
        if rules.last().pattern == mesg {
            earlier.push(rule_output(rules.last()))
        } else {
            earlier
        }
    }
}

/// The rules of a Mackie Control surface: the jog controller (CC 60) turned
/// clockwise or counter-clockwise sets pitch bend 1 to a fixed level.
pub open spec fn mackie_rules() -> Seq<RuleView> {
    seq![
        RuleView { pattern: seq![0xB0u8, 0x3Cu8, 0x01u8], status_out: 0xE0, target: Ratio { num: 0, den: 1 } },
        RuleView { pattern: seq![0xB0u8, 0x3Cu8, 0x41u8], status_out: 0xE0, target: Ratio { num: 4, den: 5 } },
    ]
}

/// The rule table of a Mackie Control surface, built once.
pub fn default_triggers() -> (r: TriggerTable)
    ensures
        r@ == mackie_rules(),
        r.wf(),
{
    let cw = TriggerRule {
        label: "CC #60 CW -> PB #1",
        pattern: vec![0xB0, 0x3C, 0x01],
        status_out: 0xE0,
        target: Ratio { num: 0, den: 1 },
    };
    let ccw = TriggerRule {
        label: "CC #60 CCW -> PB #1",
        pattern: vec![0xB0, 0x3C, 0x41],
        status_out: 0xE0,
        target: Ratio { num: 4, den: 5 },
    };
    assert(cw.pattern@ =~= seq![0xB0u8, 0x3Cu8, 0x01u8]);
    assert(ccw.pattern@ =~= seq![0xB0u8, 0x3Cu8, 0x41u8]);
    let rules = vec![cw, ccw];
    let table = TriggerTable { rules };
    assert(table@ =~= mackie_rules());
    table
}

/// Whether two byte strings are equal.
fn bytes_equal(a: &[u8], b: &[u8]) -> (r: bool)
    ensures
        r == (a@ == b@),
{
    if a.len() != b.len() {
        return false;
    }
    let mut i: usize = 0;
    while i < a.len()
        invariant
            a@.len() == b@.len(),
            i <= a@.len(),
            a@.subrange(0, i as int) =~= b@.subrange(0, i as int),
        decreases a@.len() - i,
    {
        if a[i] != b[i] {
            assert(a@[i as int] != b@[i as int]);
            return false;
        }
        i += 1;
        assert(a@.subrange(0, i as int) =~= b@.subrange(0, i as int));
    }
    assert(a@ =~= a@.subrange(0, i as int));
    assert(b@ =~= b@.subrange(0, i as int));
    true
}

/// The frames that the table sends for the input frame `mesg`, stamped with
/// `time`: one for each rule that matches `mesg` exactly; none when no rule
/// matches.
pub fn trigger_midi_events(table: &TriggerTable, time: u32, mesg: &[u8]) -> (r: Vec<RawFrame>)
    requires
        table.wf(),
    ensures
        r@.len() == triggered_by(table@, mesg@).len(),
        forall|k: int| 0 <= k < r@.len() ==> (#[trigger] r@[k])@ == (time, triggered_by(table@, mesg@)[k]),
{
    let mut out: Vec<RawFrame> = Vec::new();
    let mut i: usize = 0;
    while i < table.rules.len()
        invariant
            table.wf(),
            i <= table.rules@.len(),
            out@.len() == triggered_by(table@.subrange(0, i as int), mesg@).len(),
            forall|k: int| 0 <= k < out@.len() ==> (#[trigger] out@[k])@ == (time, triggered_by(table@.subrange(0, i as int), mesg@)[k]),
        decreases table.rules@.len() - i,
    {
        let rule = &table.rules[i];
        assert(table@.subrange(0, i as int + 1).drop_last() =~= table@.subrange(0, i as int));
        assert(table@[i as int] == rule@);
        if bytes_equal(rule.pattern.as_slice(), mesg) {
            assert(rule@.target.wf());
            let value_out = convert_value_to_lsb_msb(rule.target);
            let payload: [u8; 3] = [rule.status_out, value_out[0], value_out[1]];
            match make_raw_midi_mesg(time, payload.as_slice()) {
                Ok(frame) => {
                    assert(payload@ =~= seq![rule.status_out, (raw14_of(rule.target) % 128) as u8, (raw14_of(rule.target) / 128) as u8]);
                    out.push(frame);
                },
                Err(_) => {
                    assert(false);
                },
            }
        }
        i += 1;
    }
    assert(table@.subrange(0, table@.len() as int) =~= table@);
    out
}


/// A frame that no rule's pattern equals sends nothing.
pub proof fn lemma_no_match_sends_nothing(rules: Seq<RuleView>, mesg: Seq<u8>)
    requires
        forall|k: int| 0 <= k < rules.len() ==> (#[trigger] rules[k]).pattern != mesg,
    ensures
        triggered_by(rules, mesg) == Seq::<Seq<u8>>::empty(),
    decreases rules.len(),
{
    if rules.len() > 0 {
        assert(rules.last() == rules[rules.len() - 1]);
        lemma_no_match_sends_nothing(rules.drop_last(), mesg);
    }
}

/// A frame equal to the pattern of exactly one rule sends that rule's
/// encoded output and nothing else.
pub proof fn lemma_exact_match_sends_output(rules: Seq<RuleView>, mesg: Seq<u8>, j: int)
    requires
        0 <= j < rules.len(),
        rules[j].pattern == mesg,
        forall|k: int| 0 <= k < rules.len() && k != j ==> (#[trigger] rules[k]).pattern != mesg,
    ensures
        triggered_by(rules, mesg) == seq![rule_output(rules[j])],
    decreases rules.len(),
{
    let earlier = rules.drop_last();
    if j == rules.len() - 1 {
        assert forall|k: int| 0 <= k < earlier.len() implies (#[trigger] earlier[k]).pattern != mesg by {
            assert(earlier[k] == rules[k]);
        }
        lemma_no_match_sends_nothing(earlier, mesg);
        assert(Seq::<Seq<u8>>::empty().push(rule_output(rules[j])) =~= seq![rule_output(rules[j])]);
    } else {
        assert forall|k: int| 0 <= k < earlier.len() && k != j implies (#[trigger] earlier[k]).pattern != mesg by {
            assert(earlier[k] == rules[k]);
        }
        lemma_exact_match_sends_output(earlier, mesg, j);
        assert(rules.last() == rules[rules.len() - 1]);
    }
}

} // verus!
