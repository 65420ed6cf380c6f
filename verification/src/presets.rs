//! Preset application: drive groups of registry joints by name fragment.
//!
//! A fragment matches a registry entry either exactly or as a suffix behind
//! a path separator: `"j1"` matches `"j1"` and `"left/j1"`, never `"xj1"`.
//! A preset sets each matching joint to an absolute value or to a fraction
//! of its range.

use vstd::prelude::*;
use crate::registry::{
    bytes_eq, clamp_to_range, spec_clamp, wf_entry, wf_registry, JointEntryView, JointRegistry,
    FRACTION_ONE,
};

verus! {

/// What a preset writes to a matching joint: an absolute value, or a
/// fraction of the joint's own range, in millionths.
#[derive(Debug)]
pub enum PresetTarget {
    Absolute(i64),
    Fraction(u64),
}

/// One step of a preset plan: a name fragment and what to write.
#[derive(Debug)]
pub struct PresetEntry {
    pub fragment: Vec<u8>,
    pub target: PresetTarget,
}

/// Mathematical model of a preset target.
pub enum PresetTargetView {
    Absolute(int),
    Fraction(nat),
}

/// Mathematical model of one preset step.
#[verifier::ext_equal]
pub struct PresetActionView {
    pub fragment: Seq<u8>,
    pub target: PresetTargetView,
}

impl View for PresetTarget {
    type V = PresetTargetView;

    open spec fn view(&self) -> PresetTargetView {
        match *self {
            PresetTarget::Absolute(v) => PresetTargetView::Absolute(v as int),
            PresetTarget::Fraction(f) => PresetTargetView::Fraction(f as nat),
        }
    }
}

impl View for PresetEntry {
    type V = PresetActionView;

    open spec fn view(&self) -> PresetActionView {
        PresetActionView { fragment: self.fragment@, target: self.target@ }
    }
}

/// Suffix matching with a path-separator boundary: the fragment is the whole
/// name, or follows a `/` at the end of the name.
pub open spec fn name_matches(full: Seq<u8>, frag: Seq<u8>) -> bool {
    ||| full == frag
    ||| (full.len() > frag.len() && full.subrange(
        full.len() - frag.len(),
        full.len() as int,
    ) == frag && full[full.len() - frag.len() - 1] == 0x2f)
}

/// Returns true if `full` names the same joint that `token` addresses:
/// an exact match, or `token` behind a path-separator boundary.
pub fn joint_name_matches_suffix(full: &Vec<u8>, token: &Vec<u8>) -> (r: bool)
    ensures
        r == name_matches(full@, token@),
{
    if bytes_eq(full, token) {
        return true;
    }
    if full.len() <= token.len() {
        return false;
    }
    let fl: usize = full.len();
    let off: usize = fl - token.len();
    if full[off - 1] != 0x2f {
        return false;
    }
    let n: usize = token.len();
    let mut k: usize = 0;
    while k < n
        invariant
            0 <= k <= n,
            n == token@.len(),
            fl == full@.len(),
            off + n == fl,
            fl > n,
            forall|m: int| 0 <= m < k ==> #[trigger] full@[off + m] == token@[m],
        decreases n - k,
    {
        if full[off + k] != token[k] {
            proof {
                let sub = full@.subrange(off as int, full@.len() as int);
                assert(sub[k as int] == full@[off + k]);
                assert(sub != token@);
            }
            return false;
        }
        k = k + 1;
    }
    proof {
        assert forall|m: int|
            0 <= m < n implies full@.subrange(off as int, fl as int)[m] == token@[m] by {
            assert(full@[off + m] == token@[m]);
        }
        assert(full@.subrange(off as int, fl as int) =~= token@);
    }
    true
}

/// The value at `fraction` (in millionths, clamped to the whole range)
/// between an entry's bounds.
pub open spec fn frac_value(e: JointEntryView, fraction: nat) -> int {
    let f = if fraction > FRACTION_ONE { FRACTION_ONE as nat } else { fraction };
    e.min + (f * (e.max - e.min)) / (FRACTION_ONE as int)
}

/// The registry after one preset action: every matching entry is written
/// (clamped), the rest keep their state.
pub open spec fn apply_action(
    entries: Seq<JointEntryView>,
    a: PresetActionView,
) -> Seq<JointEntryView> {
    entries.map_values(
        |e: JointEntryView|
            if name_matches(e.name, a.fragment) {
                match a.target {
                    PresetTargetView::Absolute(v) => e.with_value(spec_clamp(v, e.min, e.max)),
                    PresetTargetView::Fraction(f) => e.with_value(
                        spec_clamp(frac_value(e, f), e.min, e.max),
                    ),
                }
            } else {
                e
            },
    )
}

/// The registry after the first `k` actions of a plan, in order.
pub open spec fn apply_plan_upto(
    entries: Seq<JointEntryView>,
    plan: Seq<PresetActionView>,
    k: int,
) -> Seq<JointEntryView>
    decreases k,
{
    if k <= 0 {
        entries
    } else {
        apply_action(apply_plan_upto(entries, plan, k - 1), plan[k - 1])
    }
}

/// The registry after a whole plan.
pub open spec fn apply_plan(
    entries: Seq<JointEntryView>,
    plan: Seq<PresetActionView>,
) -> Seq<JointEntryView> {
    apply_plan_upto(entries, plan, plan.len() as int)
}

impl JointRegistry {
    /// Applies one preset action to every matching entry.
    pub fn apply_action_exec(&mut self, fragment: &Vec<u8>, target: &PresetTarget)
        requires
            wf_registry(old(self)@),
        ensures
            wf_registry(final(self)@),
            final(self)@ =~= apply_action(
                old(self)@,
                PresetActionView { fragment: fragment@, target: target@ },
            ),
    {

        let n: usize = self.entries.len();
        let mut k: usize = 0;
        while k < n
            invariant
                0 <= k <= n,
                n == self.entries@.len(),
                self@.len() == n,
                old(self)@.len() == n,
                wf_registry(old(self)@),
                forall|i: int| k <= i < n ==> #[trigger] self@[i] == old(self)@[i],
                forall|i: int|
                    0 <= i < k ==> #[trigger] self@[i] == (if name_matches(
                        old(self)@[i].name,
                        fragment@,
                    ) {
                        match target@ {
                            PresetTargetView::Absolute(v) => old(self)@[i].with_value(
                                spec_clamp(v, old(self)@[i].min, old(self)@[i].max),
                            ),
                            PresetTargetView::Fraction(f) => old(self)@[i].with_value(
                                spec_clamp(
                                    frac_value(old(self)@[i], f),
                                    old(self)@[i].min,
                                    old(self)@[i].max,
                                ),
                            ),
                        }
                    } else {
                        old(self)@[i]
                    }),
            decreases n - k,
        {
            proof {
                assert(self@[k as int] == old(self)@[k as int]);
                assert(wf_entry(old(self)@[k as int]));
            }
            if joint_name_matches_suffix(&self.entries[k].name, fragment) {
                let lo = self.entries[k].min_bound;
                let hi = self.entries[k].max_bound;
                proof {
                    assert(lo as int == old(self)@[k as int].min);
                    assert(hi as int == old(self)@[k as int].max);
                }
                let raw: i64 = match target {
                    PresetTarget::Absolute(v) => *v,
                    PresetTarget::Fraction(fraction) => {
                        let f: u64 = if *fraction > FRACTION_ONE {
                            FRACTION_ONE
                        } else {
                            *fraction
                        };
                        let span: u64 = (hi - lo) as u64;
                        proof {
                            assert((f as nat) * (span as nat) <= 2_000_000_000_000_000_000)
                                by (nonlinear_arith)
                                requires
                                    f <= 1_000_000,
                                    span <= 2_000_000_000_000,
                            ;
                        }
                        let prod: u64 = f * span;
                        let off: u64 = prod / FRACTION_ONE;
                        lo + (off as i64)
                    },
                };
                let ghost before = self@;
                let v = clamp_to_range(raw, lo, hi);
                self.entries[k].current_value = v;
                self.entries[k].last_applied_value = v;
                proof {
                    assert(self@[k as int] =~= old(self)@[k as int].with_value(v as int));
                    assert(forall|i: int|
                        0 <= i < n && i != k ==> #[trigger] self@[i] == before[i]);
                }
            }
            k = k + 1;
        }
        proof {
            assert(self@ =~= apply_action(
                old(self)@,
                PresetActionView { fragment: fragment@, target: target@ },
            ));
            assert forall|i: int| 0 <= i < self@.len() implies wf_entry(#[trigger] self@[i]) by {
                assert(wf_entry(old(self)@[i]));
            }
            assert forall|i: int, k2: int| 0 <= i < k2 < self@.len() implies (
            #[trigger] self@[i]).name != (#[trigger] self@[k2]).name by {
                assert(self@[i].name == old(self)@[i].name);
                assert(self@[k2].name == old(self)@[k2].name);
                assert(old(self)@[i].name != old(self)@[k2].name);
            }
        }
    }

    /// Applies a whole preset plan, fragment by fragment, in order.
    pub fn apply_preset(&mut self, plan: &Vec<PresetEntry>)
        requires
            wf_registry(old(self)@),
        ensures
            wf_registry(final(self)@),
            final(self)@ =~= apply_plan(
                old(self)@,
                plan@.map_values(|a: PresetEntry| a@),
            ),
    {
        let ghost planv = plan@.map_values(|a: PresetEntry| a@);
        let n: usize = plan.len();
        let mut k: usize = 0;
        while k < n
            invariant
                0 <= k <= n,
                n == plan@.len(),
                planv == plan@.map_values(|a: PresetEntry| a@),
                wf_registry(self@),
                self@ =~= apply_plan_upto(old(self)@, planv, k as int),
            decreases n - k,
        {
            self.apply_action_exec(&plan[k].fragment, &plan[k].target);
            proof {
                assert(plan@[k as int]@ == planv[k as int]);
            }
            k = k + 1;
        }
    }
}

/// Fraction used for a curled segment: slightly short of the hard stop.
pub const CURL_FRACTION: u64 = 950_000;

/// `"<finger>0_CMC_abd"` — a finger's abduction joint.
pub open spec fn tok_abd(f: u8) -> Seq<u8> {
    seq![f, ('0' as u8), ('_' as u8), ('C' as u8), ('M' as u8), ('C' as u8), ('_' as u8), ('a' as u8), ('b' as u8), ('d' as u8)]
}

/// `"<finger>1_MCP"` — a finger's first knuckle.
pub open spec fn tok_mcp(f: u8) -> Seq<u8> {
    seq![f, ('1' as u8), ('_' as u8), ('M' as u8), ('C' as u8), ('P' as u8)]
}

/// `"<finger>2_PIP"` — a finger's middle joint.
pub open spec fn tok_pip(f: u8) -> Seq<u8> {
    seq![f, ('2' as u8), ('_' as u8), ('P' as u8), ('I' as u8), ('P' as u8)]
}

/// `"<finger>3_DIP"` — a finger's tip joint.
pub open spec fn tok_dip(f: u8) -> Seq<u8> {
    seq![f, ('3' as u8), ('_' as u8), ('D' as u8), ('I' as u8), ('P' as u8)]
}

/// `"t0_TM_abd"` — the thumb's abduction joint.
pub open spec fn tok_thumb_abd() -> Seq<u8> {
    seq![('t' as u8), ('0' as u8), ('_' as u8), ('T' as u8), ('M' as u8), ('_' as u8), ('a' as u8), ('b' as u8), ('d' as u8)]
}

/// `"t1_TM"` — the thumb's base joint.
pub open spec fn tok_thumb_tm() -> Seq<u8> {
    seq![('t' as u8), ('1' as u8), ('_' as u8), ('T' as u8), ('M' as u8)]
}

/// `"t2_CMC"` — the thumb's middle joint.
pub open spec fn tok_thumb_cmc() -> Seq<u8> {
    seq![('t' as u8), ('2' as u8), ('_' as u8), ('C' as u8), ('M' as u8), ('C' as u8)]
}

/// Builds `"<finger>1_MCP"`.
fn token_mcp(f: u8) -> (v: Vec<u8>)
    ensures
        v@ == tok_mcp(f),
{
    let mut v: Vec<u8> = Vec::new();
    v.push(f);
    v.push('1' as u8);
    v.push('_' as u8);
    v.push('M' as u8);
    v.push('C' as u8);
    v.push('P' as u8);
    assert(v@ =~= tok_mcp(f));
    v
}

/// Builds `"<finger>2_PIP"`.
fn token_pip(f: u8) -> (v: Vec<u8>)
    ensures
        v@ == tok_pip(f),
{
    let mut v: Vec<u8> = Vec::new();
    v.push(f);
    v.push('2' as u8);
    v.push('_' as u8);
    v.push('P' as u8);
    v.push('I' as u8);
    v.push('P' as u8);
    assert(v@ =~= tok_pip(f));
    v
}

/// Builds `"<finger>3_DIP"`.
fn token_dip(f: u8) -> (v: Vec<u8>)
    ensures
        v@ == tok_dip(f),
{
    let mut v: Vec<u8> = Vec::new();
    v.push(f);
    v.push('3' as u8);
    v.push('_' as u8);
    v.push('D' as u8);
    v.push('I' as u8);
    v.push('P' as u8);
    assert(v@ =~= tok_dip(f));
    v
}

/// Builds `"<finger>0_CMC_abd"`.
fn token_abd(f: u8) -> (v: Vec<u8>)
    ensures
        v@ == tok_abd(f),
{
    let mut v: Vec<u8> = Vec::new();
    v.push(f);
    v.push('0' as u8);
    v.push('_' as u8);
    v.push('C' as u8);
    v.push('M' as u8);
    v.push('C' as u8);
    v.push('_' as u8);
    v.push('a' as u8);
    v.push('b' as u8);
    v.push('d' as u8);
    assert(v@ =~= tok_abd(f));
    v
}

/// Builds `"t0_TM_abd"`.
fn token_thumb_abd() -> (v: Vec<u8>)
    ensures
        v@ == tok_thumb_abd(),
{
    let mut v: Vec<u8> = Vec::new();
    v.push('t' as u8);
    v.push('0' as u8);
    v.push('_' as u8);
    v.push('T' as u8);
    v.push('M' as u8);
    v.push('_' as u8);
    v.push('a' as u8);
    v.push('b' as u8);
    v.push('d' as u8);
    assert(v@ =~= tok_thumb_abd());
    v
}

/// Builds `"t1_TM"`.
fn token_thumb_tm() -> (v: Vec<u8>)
    ensures
        v@ == tok_thumb_tm(),
{
    let mut v: Vec<u8> = Vec::new();
    v.push('t' as u8);
    v.push('1' as u8);
    v.push('_' as u8);
    v.push('T' as u8);
    v.push('M' as u8);
    assert(v@ =~= tok_thumb_tm());
    v
}

/// Builds `"t2_CMC"`.
fn token_thumb_cmc() -> (v: Vec<u8>)
    ensures
        v@ == tok_thumb_cmc(),
{
    let mut v: Vec<u8> = Vec::new();
    v.push('t' as u8);
    v.push('2' as u8);
    v.push('_' as u8);
    v.push('C' as u8);
    v.push('M' as u8);
    v.push('C' as u8);
    assert(v@ =~= tok_thumb_cmc());
    v
}

/// The registry after writing the absolute value `v` to every entry that
/// `frag` addresses.
pub open spec fn set_abs(entries: Seq<JointEntryView>, frag: Seq<u8>, v: int) -> Seq<
    JointEntryView,
> {
    apply_action(entries, PresetActionView { fragment: frag, target: PresetTargetView::Absolute(v) })
}

/// The registry after writing the range fraction `f` to every entry that
/// `frag` addresses.
pub open spec fn set_frac(entries: Seq<JointEntryView>, frag: Seq<u8>, f: nat) -> Seq<
    JointEntryView,
> {
    apply_action(entries, PresetActionView { fragment: frag, target: PresetTargetView::Fraction(f) })
}

/// Sets every joint that `token` addresses to `target` (clamped to each
/// joint's own range).
pub fn set_joint_value(reg: &mut JointRegistry, token: &Vec<u8>, target: i64)
    requires
        wf_registry(old(reg)@),
    ensures
        wf_registry(final(reg)@),
        final(reg)@ =~= set_abs(old(reg)@, token@, target as int),
{
    reg.apply_action_exec(token, &PresetTarget::Absolute(target));
}

/// Sets every joint that `token` addresses to a fraction of its range,
/// in millionths; the whole range stands for "near max".
pub fn set_joint_fraction_of_range(reg: &mut JointRegistry, token: &Vec<u8>, fraction: u64)
    requires
        wf_registry(old(reg)@),
    ensures
        wf_registry(final(reg)@),
        final(reg)@ =~= set_frac(old(reg)@, token@, fraction as nat),
{
    reg.apply_action_exec(token, &PresetTarget::Fraction(fraction));
}

/// Neutral posture for a joint is zero (clamped into its range).
pub fn set_joint_neutral(reg: &mut JointRegistry, token: &Vec<u8>)
    requires
        wf_registry(old(reg)@),
    ensures
        wf_registry(final(reg)@),
        final(reg)@ =~= set_abs(old(reg)@, token@, 0),
{
    set_joint_value(reg, token, 0);
}

/// The registry after opening one finger: its three segments go neutral.
pub open spec fn finger_open_effect(entries: Seq<JointEntryView>, f: u8) -> Seq<JointEntryView> {
    set_abs(set_abs(set_abs(entries, tok_mcp(f), 0), tok_pip(f), 0), tok_dip(f), 0)
}

/// The registry after curling one finger: its three segments go near max.
pub open spec fn finger_curled_effect(entries: Seq<JointEntryView>, f: u8) -> Seq<JointEntryView> {
    set_frac(
        set_frac(set_frac(entries, tok_mcp(f), CURL_FRACTION as nat), tok_pip(f), CURL_FRACTION as nat),
        tok_dip(f),
        CURL_FRACTION as nat,
    )
}

/// The registry after opening the thumb.
pub open spec fn thumb_open_effect(entries: Seq<JointEntryView>) -> Seq<JointEntryView> {
    set_abs(set_abs(set_abs(entries, tok_thumb_tm(), 0), tok_thumb_cmc(), 0), tok_dip('t' as u8), 0)
}

/// The registry after curling the thumb.
pub open spec fn thumb_curled_effect(entries: Seq<JointEntryView>) -> Seq<JointEntryView> {
    set_frac(
        set_frac(
            set_frac(entries, tok_thumb_tm(), CURL_FRACTION as nat),
            tok_thumb_cmc(),
            CURL_FRACTION as nat,
        ),
        tok_dip('t' as u8),
        CURL_FRACTION as nat,
    )
}

/// The registry after every abduction joint goes neutral.
pub open spec fn neutral_effect(entries: Seq<JointEntryView>) -> Seq<JointEntryView> {
    set_abs(
        set_abs(
            set_abs(
                set_abs(set_abs(entries, tok_abd('i' as u8), 0), tok_abd('m' as u8), 0),
                tok_abd('r' as u8),
                0,
            ),
            tok_abd('p' as u8),
            0,
        ),
        tok_thumb_abd(),
        0,
    )
}

/// Open finger posture: knuckle, middle and tip joints go neutral.
pub fn set_finger_open(reg: &mut JointRegistry, finger: u8)
    requires
        wf_registry(old(reg)@),
    ensures
        wf_registry(final(reg)@),
        final(reg)@ =~= finger_open_effect(old(reg)@, finger),
{
    let mcp = token_mcp(finger);
    set_joint_neutral(reg, &mcp);
    let pip = token_pip(finger);
    set_joint_neutral(reg, &pip);
    let dip = token_dip(finger);
    set_joint_neutral(reg, &dip);
}

/// Curled finger posture: knuckle, middle and tip joints go near max.
pub fn set_finger_curled(reg: &mut JointRegistry, finger: u8)
    requires
        wf_registry(old(reg)@),
    ensures
        wf_registry(final(reg)@),
        final(reg)@ =~= finger_curled_effect(old(reg)@, finger),
{
    let mcp = token_mcp(finger);
    set_joint_fraction_of_range(reg, &mcp, CURL_FRACTION);
    let pip = token_pip(finger);
    set_joint_fraction_of_range(reg, &pip, CURL_FRACTION);
    let dip = token_dip(finger);
    set_joint_fraction_of_range(reg, &dip, CURL_FRACTION);
}

/// Open thumb posture.
pub fn set_thumb_open(reg: &mut JointRegistry)
    requires
        wf_registry(old(reg)@),
    ensures
        wf_registry(final(reg)@),
        final(reg)@ =~= thumb_open_effect(old(reg)@),
{
    let tm = token_thumb_tm();
    set_joint_neutral(reg, &tm);
    let cmc = token_thumb_cmc();
    set_joint_neutral(reg, &cmc);
    let dip = token_dip('t' as u8);
    set_joint_neutral(reg, &dip);
}

/// Curled thumb posture.
pub fn set_thumb_curled(reg: &mut JointRegistry)
    requires
        wf_registry(old(reg)@),
    ensures
        wf_registry(final(reg)@),
        final(reg)@ =~= thumb_curled_effect(old(reg)@),
{
    let tm = token_thumb_tm();
    set_joint_fraction_of_range(reg, &tm, CURL_FRACTION);
    let cmc = token_thumb_cmc();
    set_joint_fraction_of_range(reg, &cmc, CURL_FRACTION);
    let dip = token_dip('t' as u8);
    set_joint_fraction_of_range(reg, &dip, CURL_FRACTION);
}

/// Hand pose presets over the hand's joint naming scheme. Fragments use
/// suffix matching, so they address the same joints behind any path prefix.
#[derive(Clone, Copy, Debug, PartialEq, Eq, Structural)]
pub enum HandPreset {
    Fist,
    OpenHand,
    Scissor,
    IndexFinger,
    MiddleFinger,
    RingFinger,
    PinkyFinger,
}

/// A preset's display name.
pub open spec fn label_spec(p: HandPreset) -> Seq<char> {
    match p {
        HandPreset::Fist => "Fist"@,
        HandPreset::OpenHand => "Open Hand"@,
        HandPreset::Scissor => "Scissor"@,
        HandPreset::IndexFinger => "Index Finger"@,
        HandPreset::MiddleFinger => "Middle Finger"@,
        HandPreset::RingFinger => "Ring Finger"@,
        HandPreset::PinkyFinger => "Pinky Finger"@,
    }
}

/// The registry after a whole preset: abduction joints go neutral, then
/// each finger and the thumb take their pose.
pub open spec fn preset_effect(p: HandPreset, entries: Seq<JointEntryView>) -> Seq<
    JointEntryView,
> {
    let base = neutral_effect(entries);
    match p {
        HandPreset::OpenHand => thumb_open_effect(
            finger_open_effect(
                finger_open_effect(
                    finger_open_effect(finger_open_effect(base, 'i' as u8), 'm' as u8),
                    'r' as u8,
                ),
                'p' as u8,
            ),
        ),
        HandPreset::Fist => thumb_curled_effect(
            finger_curled_effect(
                finger_curled_effect(
                    finger_curled_effect(finger_curled_effect(base, 'i' as u8), 'm' as u8),
                    'r' as u8,
                ),
                'p' as u8,
            ),
        ),
        HandPreset::Scissor => thumb_open_effect(
            finger_curled_effect(
                finger_curled_effect(
                    finger_open_effect(finger_open_effect(base, 'i' as u8), 'm' as u8),
                    'r' as u8,
                ),
                'p' as u8,
            ),
        ),
        HandPreset::IndexFinger => thumb_open_effect(
            finger_curled_effect(
                finger_curled_effect(
                    finger_curled_effect(finger_open_effect(base, 'i' as u8), 'm' as u8),
                    'r' as u8,
                ),
                'p' as u8,
            ),
        ),
        HandPreset::MiddleFinger => thumb_open_effect(
            finger_curled_effect(
                finger_curled_effect(
                    finger_open_effect(finger_curled_effect(base, 'i' as u8), 'm' as u8),
                    'r' as u8,
                ),
                'p' as u8,
            ),
        ),
        HandPreset::RingFinger => thumb_open_effect(
            finger_curled_effect(
                finger_open_effect(
                    finger_curled_effect(finger_curled_effect(base, 'i' as u8), 'm' as u8),
                    'r' as u8,
                ),
                'p' as u8,
            ),
        ),
        HandPreset::PinkyFinger => thumb_open_effect(
            finger_open_effect(
                finger_curled_effect(
                    finger_curled_effect(finger_curled_effect(base, 'i' as u8), 'm' as u8),
                    'r' as u8,
                ),
                'p' as u8,
            ),
        ),
    }
}

impl HandPreset {
    /// The preset's display name.
    pub fn label(self) -> (r: &'static str)
        ensures
            r@ == label_spec(self),
    {
        match self {
            HandPreset::Fist => "Fist",
            HandPreset::OpenHand => "Open Hand",
            HandPreset::Scissor => "Scissor",
            HandPreset::IndexFinger => "Index Finger",
            HandPreset::MiddleFinger => "Middle Finger",
            HandPreset::RingFinger => "Ring Finger",
            HandPreset::PinkyFinger => "Pinky Finger",
        }
    }

    /// Applies the pose: neutral abduction everywhere, then each finger and
    /// the thumb open or curled as the preset asks.
    pub fn apply(self, reg: &mut JointRegistry)
        requires
            wf_registry(old(reg)@),
        ensures
            wf_registry(final(reg)@),
            final(reg)@ =~= preset_effect(self, old(reg)@),
    {
        let abd_i = token_abd('i' as u8);
        set_joint_neutral(reg, &abd_i);
        let abd_m = token_abd('m' as u8);
        set_joint_neutral(reg, &abd_m);
        let abd_r = token_abd('r' as u8);
        set_joint_neutral(reg, &abd_r);
        let abd_p = token_abd('p' as u8);
        set_joint_neutral(reg, &abd_p);
        let abd_t = token_thumb_abd();
        set_joint_neutral(reg, &abd_t);
        match self {
            HandPreset::OpenHand => {
                set_finger_open(reg, 'i' as u8);
                set_finger_open(reg, 'm' as u8);
                set_finger_open(reg, 'r' as u8);
                set_finger_open(reg, 'p' as u8);
                set_thumb_open(reg);
            },
            HandPreset::Fist => {
                set_finger_curled(reg, 'i' as u8);
                set_finger_curled(reg, 'm' as u8);
                set_finger_curled(reg, 'r' as u8);
                set_finger_curled(reg, 'p' as u8);
                set_thumb_curled(reg);
            },
            HandPreset::Scissor => {
                set_finger_open(reg, 'i' as u8);
                set_finger_open(reg, 'm' as u8);
                set_finger_curled(reg, 'r' as u8);
                set_finger_curled(reg, 'p' as u8);
                set_thumb_open(reg);
            },
            HandPreset::IndexFinger => {
                set_finger_open(reg, 'i' as u8);
                set_finger_curled(reg, 'm' as u8);
                set_finger_curled(reg, 'r' as u8);
                set_finger_curled(reg, 'p' as u8);
                set_thumb_open(reg);
            },
            HandPreset::MiddleFinger => {
                set_finger_curled(reg, 'i' as u8);
                set_finger_open(reg, 'm' as u8);
                set_finger_curled(reg, 'r' as u8);
                set_finger_curled(reg, 'p' as u8);
                set_thumb_open(reg);
            },
            HandPreset::RingFinger => {
                set_finger_curled(reg, 'i' as u8);
                set_finger_curled(reg, 'm' as u8);
                set_finger_open(reg, 'r' as u8);
                set_finger_curled(reg, 'p' as u8);
                set_thumb_open(reg);
            },
            HandPreset::PinkyFinger => {
                set_finger_curled(reg, 'i' as u8);
                set_finger_curled(reg, 'm' as u8);
                set_finger_curled(reg, 'r' as u8);
                set_finger_open(reg, 'p' as u8);
                set_thumb_open(reg);
            },
        }
    }
}

} // verus!
