//! Codec: serialize a robot state to, and parse it back from, a
//! topic-prefixed text frame of the form `"{topic} {json}"`.
//!
//! The payload is a JSON object with the fields `timestamp` (decimal tick),
//! `robot_id` (string) and `joints` (array of objects with `timestamp`,
//! `joint_name`, `angle_rad`, `velocity` and `torque`). Numeric quantities
//! are printed as signed decimals with six fractional digits, the textual
//! form of the library's fixed-point millionths; the parser accepts one to
//! six fractional digits. The known fields stand in the fixed order the
//! encoder writes them; unknown members after them are skipped without
//! interpretation; a missing field or a type mismatch rejects the frame.

use vstd::prelude::*;
use crate::state::{JointAngles, JointView, RobotState, StateView, wf_joint};

verus! {

/// Scale between a fixed-point value and its integer part: one million.
pub const SCALE: u64 = 1_000_000;

// ---------------------------------------------------------------------------
// The grammar's fixed tokens.
// ---------------------------------------------------------------------------

/// `{"timestamp":` — opens both the snapshot object and a joint object.
pub open spec fn lit_ts_key() -> Seq<u8> {
    seq![('{' as u8), ('"' as u8), ('t' as u8), ('i' as u8), ('m' as u8), ('e' as u8), ('s' as u8), ('t' as u8), ('a' as u8), ('m' as u8), ('p' as u8), ('"' as u8), (':' as u8)]
}

/// `,"robot_id":"`
pub open spec fn lit_source_key() -> Seq<u8> {
    seq![(',' as u8), ('"' as u8), ('r' as u8), ('o' as u8), ('b' as u8), ('o' as u8), ('t' as u8), ('_' as u8), ('i' as u8), ('d' as u8), ('"' as u8), (':' as u8), ('"' as u8)]
}

/// `","joints":[`
pub open spec fn lit_joints_key() -> Seq<u8> {
    seq![('"' as u8), (',' as u8), ('"' as u8), ('j' as u8), ('o' as u8), ('i' as u8), ('n' as u8), ('t' as u8), ('s' as u8), ('"' as u8), (':' as u8), ('[' as u8)]
}

/// `]}`
pub open spec fn lit_state_end() -> Seq<u8> {
    seq![(']' as u8), ('}' as u8)]
}

/// `,"joint_name":"`
pub open spec fn lit_name_key() -> Seq<u8> {
    seq![(',' as u8), ('"' as u8), ('j' as u8), ('o' as u8), ('i' as u8), ('n' as u8), ('t' as u8), ('_' as u8), ('n' as u8), ('a' as u8), ('m' as u8), ('e' as u8), ('"' as u8), (':' as u8), ('"' as u8)]
}

/// `","angle_rad":`
pub open spec fn lit_angle_key() -> Seq<u8> {
    seq![('"' as u8), (',' as u8), ('"' as u8), ('a' as u8), ('n' as u8), ('g' as u8), ('l' as u8), ('e' as u8), ('_' as u8), ('r' as u8), ('a' as u8), ('d' as u8), ('"' as u8), (':' as u8)]
}

/// `,"velocity":`
pub open spec fn lit_velocity_key() -> Seq<u8> {
    seq![(',' as u8), ('"' as u8), ('v' as u8), ('e' as u8), ('l' as u8), ('o' as u8), ('c' as u8), ('i' as u8), ('t' as u8), ('y' as u8), ('"' as u8), (':' as u8)]
}

/// `,"torque":`
pub open spec fn lit_torque_key() -> Seq<u8> {
    seq![(',' as u8), ('"' as u8), ('t' as u8), ('o' as u8), ('r' as u8), ('q' as u8), ('u' as u8), ('e' as u8), ('"' as u8), (':' as u8)]
}

/// `}`
pub open spec fn lit_joint_end() -> Seq<u8> {
    seq![('}' as u8)]
}

// ---------------------------------------------------------------------------
// Encoding, as a mathematical function of the model.
// ---------------------------------------------------------------------------

/// The ASCII digit for `d` (meaningful for `d < 10`).
pub open spec fn dec_digit(d: nat) -> u8 {
    (0x30 + d) as u8
}

/// Decimal digits of `n`, most significant first, no leading zeros
/// (a single `0` for zero).
pub open spec fn dec_nat(n: nat) -> Seq<u8>
    decreases n,
{
    if n < 10 {
        seq![dec_digit(n)]
    } else {
        dec_nat(n / 10).push(dec_digit(n % 10))
    }
}

/// The last `w` decimal digits of `n`, zero-padded to exactly `w` bytes.
pub open spec fn dec_pad(n: nat, w: nat) -> Seq<u8>
    decreases w,
{
    if w == 0 {
        Seq::empty()
    } else {
        dec_pad(n / 10, (w - 1) as nat).push(dec_digit(n % 10))
    }
}

/// A nonnegative fixed-point magnitude: integer part, a dot,
/// six fractional digits.
pub open spec fn enc_mag(m: nat) -> Seq<u8> {
    dec_nat(m / (SCALE as nat)) + seq![('.' as u8)] + dec_pad(m % (SCALE as nat), 6)
}

/// A fixed-point value: optional minus sign, then its magnitude.
pub open spec fn enc_fixed(v: int) -> Seq<u8> {
    if v < 0 {
        seq![('-' as u8)] + enc_mag((-v) as nat)
    } else {
        enc_mag(v as nat)
    }
}

/// One joint object.
pub open spec fn enc_joint(j: JointView) -> Seq<u8> {
    lit_ts_key() + dec_nat(j.timestamp) + lit_name_key() + j.name + lit_angle_key()
        + enc_fixed(j.angle) + lit_velocity_key() + enc_fixed(j.velocity) + lit_torque_key()
        + enc_fixed(j.torque) + lit_joint_end()
}

/// The joint array's elements, comma-separated.
pub open spec fn enc_joint_list(js: Seq<JointView>) -> Seq<u8>
    decreases js.len(),
{
    if js.len() == 0 {
        Seq::empty()
    } else if js.len() == 1 {
        enc_joint(js[0])
    } else {
        enc_joint(js[0]) + seq![(',' as u8)] + enc_joint_list(js.drop_first())
    }
}

/// The snapshot object.
pub open spec fn enc_state(st: StateView) -> Seq<u8> {
    lit_ts_key() + dec_nat(st.timestamp) + lit_source_key() + st.source_id + lit_joints_key()
        + enc_joint_list(st.joints) + lit_state_end()
}

/// The whole frame: topic, one space, payload.
pub open spec fn enc_frame(topic: Seq<u8>, st: StateView) -> Seq<u8> {
    topic + seq![(' ' as u8)] + enc_state(st)
}

// ---------------------------------------------------------------------------
// Executable encoder.
// ---------------------------------------------------------------------------

/// Appends the bytes of `s` to `out`.
fn push_bytes(out: &mut Vec<u8>, s: &Vec<u8>)
    ensures
        final(out)@ == old(out)@ + s@,
{
    let mut k: usize = 0;
    while k < s.len()
        invariant
            k <= s@.len(),
            out@ == old(out)@ + s@.subrange(0, k as int),
        decreases s@.len() - k,
    {
        out.push(s[k]);
        k = k + 1;
        assert(out@ =~= old(out)@ + s@.subrange(0, k as int));
    }
    assert(out@ =~= old(out)@ + s@);
}

/// Appends the decimal digits of `n`.
fn push_dec(out: &mut Vec<u8>, n: u64)
    ensures
        final(out)@ == old(out)@ + dec_nat(n as nat),
    decreases n,
{
    if n < 10 {
        out.push(0x30 + n as u8);
        assert(out@ =~= old(out)@ + dec_nat(n as nat));
    } else {
        push_dec(out, n / 10);
        out.push(0x30 + (n % 10) as u8);
        assert(out@ =~= old(out)@ + dec_nat(n as nat));
    }
}

/// Appends the last `w` decimal digits of `n`, zero-padded.
fn push_pad(out: &mut Vec<u8>, n: u64, w: u64)
    ensures
        final(out)@ == old(out)@ + dec_pad(n as nat, w as nat),
    decreases w,
{
    if w > 0 {
        push_pad(out, n / 10, w - 1);
        out.push(0x30 + (n % 10) as u8);
        assert(out@ =~= old(out)@ + dec_pad(n as nat, w as nat));
    } else {
        assert(out@ =~= old(out)@ + dec_pad(n as nat, 0));
    }
}

/// Appends a fixed-point value as sign, integer part, dot, six digits.
fn push_fixed(out: &mut Vec<u8>, v: i64)
    requires
        v > i64::MIN,
    ensures
        final(out)@ == old(out)@ + enc_fixed(v as int),
{
    let m: u64 = if v < 0 {
        out.push(('-' as u8));
        (-v) as u64
    } else {
        v as u64
    };
    push_dec(out, m / SCALE);
    out.push(('.' as u8));
    push_pad(out, m % SCALE, 6);
    assert(out@ =~= old(out)@ + enc_fixed(v as int));
}

/// Appends `{"timestamp":`.
fn push_ts_key(out: &mut Vec<u8>)
    ensures
        final(out)@ == old(out)@ + lit_ts_key(),
{
    out.push(('{' as u8));
    out.push(('"' as u8));
    out.push(('t' as u8));
    out.push(('i' as u8));
    out.push(('m' as u8));
    out.push(('e' as u8));
    out.push(('s' as u8));
    out.push(('t' as u8));
    out.push(('a' as u8));
    out.push(('m' as u8));
    out.push(('p' as u8));
    out.push(('"' as u8));
    out.push((':' as u8));
    assert(out@ =~= old(out)@ + lit_ts_key());
}

/// Appends `,"robot_id":"`.
fn push_source_key(out: &mut Vec<u8>)
    ensures
        final(out)@ == old(out)@ + lit_source_key(),
{
    out.push((',' as u8));
    out.push(('"' as u8));
    out.push(('r' as u8));
    out.push(('o' as u8));
    out.push(('b' as u8));
    out.push(('o' as u8));
    out.push(('t' as u8));
    out.push(('_' as u8));
    out.push(('i' as u8));
    out.push(('d' as u8));
    out.push(('"' as u8));
    out.push((':' as u8));
    out.push(('"' as u8));
    assert(out@ =~= old(out)@ + lit_source_key());
}

/// Appends `","joints":[`.
fn push_joints_key(out: &mut Vec<u8>)
    ensures
        final(out)@ == old(out)@ + lit_joints_key(),
{
    out.push(('"' as u8));
    out.push((',' as u8));
    out.push(('"' as u8));
    out.push(('j' as u8));
    out.push(('o' as u8));
    out.push(('i' as u8));
    out.push(('n' as u8));
    out.push(('t' as u8));
    out.push(('s' as u8));
    out.push(('"' as u8));
    out.push((':' as u8));
    out.push(('[' as u8));
    assert(out@ =~= old(out)@ + lit_joints_key());
}

/// Appends `,"joint_name":"`.
fn push_name_key(out: &mut Vec<u8>)
    ensures
        final(out)@ == old(out)@ + lit_name_key(),
{
    out.push((',' as u8));
    out.push(('"' as u8));
    out.push(('j' as u8));
    out.push(('o' as u8));
    out.push(('i' as u8));
    out.push(('n' as u8));
    out.push(('t' as u8));
    out.push(('_' as u8));
    out.push(('n' as u8));
    out.push(('a' as u8));
    out.push(('m' as u8));
    out.push(('e' as u8));
    out.push(('"' as u8));
    out.push((':' as u8));
    out.push(('"' as u8));
    assert(out@ =~= old(out)@ + lit_name_key());
}

/// Appends `","angle_rad":`.
fn push_angle_key(out: &mut Vec<u8>)
    ensures
        final(out)@ == old(out)@ + lit_angle_key(),
{
    out.push(('"' as u8));
    out.push((',' as u8));
    out.push(('"' as u8));
    out.push(('a' as u8));
    out.push(('n' as u8));
    out.push(('g' as u8));
    out.push(('l' as u8));
    out.push(('e' as u8));
    out.push(('_' as u8));
    out.push(('r' as u8));
    out.push(('a' as u8));
    out.push(('d' as u8));
    out.push(('"' as u8));
    out.push((':' as u8));
    assert(out@ =~= old(out)@ + lit_angle_key());
}

/// Appends `,"velocity":`.
fn push_velocity_key(out: &mut Vec<u8>)
    ensures
        final(out)@ == old(out)@ + lit_velocity_key(),
{
    out.push((',' as u8));
    out.push(('"' as u8));
    out.push(('v' as u8));
    out.push(('e' as u8));
    out.push(('l' as u8));
    out.push(('o' as u8));
    out.push(('c' as u8));
    out.push(('i' as u8));
    out.push(('t' as u8));
    out.push(('y' as u8));
    out.push(('"' as u8));
    out.push((':' as u8));
    assert(out@ =~= old(out)@ + lit_velocity_key());
}

/// Appends `,"torque":`.
fn push_torque_key(out: &mut Vec<u8>)
    ensures
        final(out)@ == old(out)@ + lit_torque_key(),
{
    out.push((',' as u8));
    out.push(('"' as u8));
    out.push(('t' as u8));
    out.push(('o' as u8));
    out.push(('r' as u8));
    out.push(('q' as u8));
    out.push(('u' as u8));
    out.push(('e' as u8));
    out.push(('"' as u8));
    out.push((':' as u8));
    assert(out@ =~= old(out)@ + lit_torque_key());
}

/// Appends one joint object.
fn push_joint(out: &mut Vec<u8>, j: &JointAngles)
    requires
        j.wf(),
    ensures
        final(out)@ == old(out)@ + enc_joint(j@),
{
    push_ts_key(out);
    push_dec(out, j.timestamp);
    push_name_key(out);
    push_bytes(out, &j.joint_name);
    push_angle_key(out);
    push_fixed(out, j.angle_urad);
    push_velocity_key(out);
    push_fixed(out, j.velocity_urad);
    push_torque_key(out);
    push_fixed(out, j.torque_unm);
    out.push(('}' as u8));
    assert(out@ =~= old(out)@ + enc_joint(j@));
}

/// Appending one more joint to a nonempty array appends a comma and
/// that joint's encoding.
proof fn lemma_enc_list_snoc(js: Seq<JointView>, j: JointView)
    requires
        js.len() >= 1,
    ensures
        enc_joint_list(js.push(j)) == enc_joint_list(js) + seq![(',' as u8)] + enc_joint(j),
    decreases js.len(),
{
    let full = js.push(j);
    if js.len() == 1 {
        assert(full.len() == 2);
        assert(full[0] == js[0]);
        assert(full.drop_first() =~= seq![j]);
        assert(enc_joint_list(seq![j]) == enc_joint(j));
        assert(enc_joint_list(full) =~= enc_joint_list(js) + seq![(',' as u8)] + enc_joint(j));
    } else {
        lemma_enc_list_snoc(js.drop_first(), j);
        assert(full.drop_first() =~= js.drop_first().push(j));
        assert(full[0] == js[0]);
        assert(enc_joint_list(full) == enc_joint(js[0]) + seq![(',' as u8)] + enc_joint_list(
            js.drop_first().push(j),
        ));
        assert(enc_joint_list(full) =~= enc_joint_list(js) + seq![(',' as u8)] + enc_joint(j));
    }
}

/// Serializes `state` into the text frame `"{topic} {json}"`.
pub fn encode(topic: &Vec<u8>, state: &RobotState) -> (r: Vec<u8>)
    requires
        state.wf(),
    ensures
        r@ == enc_frame(topic@, state@),
{
    let mut out: Vec<u8> = Vec::new();
    push_bytes(&mut out, topic);
    out.push((' ' as u8));
    push_ts_key(&mut out);
    push_dec(&mut out, state.timestamp);
    push_source_key(&mut out);
    push_bytes(&mut out, &state.source_id);
    push_joints_key(&mut out);
    let ghost base = out@;
    let mut k: usize = 0;
    while k < state.joints.len()
        invariant
            k <= state.joints@.len(),
            state.wf(),
            out@ == base + enc_joint_list(state@.joints.take(k as int)),
        decreases state.joints@.len() - k,
    {
        assert(state@.joints[k as int] == state.joints@[k as int]@);
        assert(wf_joint(state@.joints[k as int]));
        if k > 0 {
            out.push((',' as u8));
        }
        push_joint(&mut out, &state.joints[k]);
        proof {
            let taken = state@.joints.take(k as int);
            let jv = state@.joints[k as int];
            assert(state@.joints.take(k as int + 1) =~= taken.push(jv));
            if k > 0 {
                lemma_enc_list_snoc(taken, jv);
                assert(out@ =~= base + enc_joint_list(taken.push(jv)));
            } else {
                assert(taken.len() == 0);
                assert(enc_joint_list(seq![jv]) == enc_joint(jv));
                assert(out@ =~= base + enc_joint_list(taken.push(jv)));
            }
        }
        k = k + 1;
    }
    assert(state@.joints.take(state.joints@.len() as int) =~= state@.joints);
    out.push((']' as u8));
    out.push(('}' as u8));
    assert(out@ =~= enc_frame(topic@, state@));
    out
}

// ---------------------------------------------------------------------------
// Parsing, as a mathematical function of the frame bytes.
// ---------------------------------------------------------------------------

/// Why a frame was rejected: no space separator, or a payload that does not
/// parse into the expected shape.
#[derive(Clone, Copy, Debug, PartialEq, Eq, Structural)]
pub enum DecodeError {
    Malformed,
}

/// An ASCII decimal digit.
pub open spec fn is_digit(b: u8) -> bool {
    0x30 <= b <= 0x39
}

/// Powers of ten.
pub open spec fn pow10(k: nat) -> nat
    decreases k,
{
    if k == 0 {
        1
    } else {
        10 * pow10((k - 1) as nat)
    }
}

/// End of the digit run that starts at `i`.
pub open spec fn digit_run_end(s: Seq<u8>, i: int) -> int
    decreases s.len() - i,
{
    if 0 <= i < s.len() && is_digit(s[i]) {
        digit_run_end(s, i + 1)
    } else {
        i
    }
}

/// Value of the decimal digits `s[i..j)`.
pub open spec fn digits_val(s: Seq<u8>, i: int, j: int) -> nat
    decreases j - i,
{
    if i < j {
        digits_val(s, i, j - 1) * 10 + (if is_digit(s[j - 1]) {
            (s[j - 1] - 0x30) as nat
        } else {
            0
        })
    } else {
        0
    }
}

/// First index at or past `i` holding `target` (or the end of `s`).
pub open spec fn scan_to(s: Seq<u8>, i: int, target: u8) -> int
    decreases s.len() - i,
{
    if 0 <= i < s.len() && s[i] != target {
        scan_to(s, i + 1, target)
    } else {
        i
    }
}

/// An unsigned decimal of one to nineteen digits, read greedily.
pub open spec fn parse_nat(s: Seq<u8>, i: int) -> Option<(nat, int)> {
    let j = digit_run_end(s, i);
    if j == i || j - i > 19 {
        None
    } else {
        Some((digits_val(s, i, j), j))
    }
}

/// String content up to the next quote; the returned index sits on the
/// closing quote itself, which the following fixed token consumes.
pub open spec fn parse_str_content(s: Seq<u8>, i: int) -> Option<(Seq<u8>, int)> {
    let j = scan_to(s, i, 0x22);
    if 0 <= i <= j < s.len() {
        Some((s.subrange(i, j), j))
    } else {
        None
    }
}

/// A fixed token of the grammar.
pub open spec fn parse_lit(s: Seq<u8>, i: int, lit: Seq<u8>) -> Option<int> {
    if 0 <= i && i + lit.len() <= s.len() && s.subrange(i, i + lit.len()) == lit {
        Some(i + lit.len())
    } else {
        None
    }
}

/// A fixed-point value: optional minus sign, integer digits, then an
/// optional dot with one to six fractional digits (padded to millionths).
/// Values beyond the fixed-point range are rejected.
pub open spec fn parse_fixed(s: Seq<u8>, i: int) -> Option<(int, int)> {
    let neg = 0 <= i < s.len() && s[i] == 0x2d;
    let i0 = if neg {
        i + 1
    } else {
        i
    };
    match parse_nat(s, i0) {
        None => None,
        Some((a, i1)) => {
            let mag = if i1 < s.len() && s[i1] == 0x2e {
                match parse_nat(s, i1 + 1) {
                    None => None,
                    Some((f, i2)) => if i2 - (i1 + 1) <= 6 {
                        Some((a * (SCALE as nat) + f * pow10((6 - (i2 - i1 - 1)) as nat), i2))
                    } else {
                        None
                    },
                }
            } else {
                Some((a * (SCALE as nat), i1))
            };
            match mag {
                None => None,
                Some((m, i3)) => if m > i64::MAX {
                    None
                } else {
                    Some((if neg { -(m as int) } else { m as int }, i3))
                },
            }
        },
    }
}

/// `true`
pub open spec fn lit_true() -> Seq<u8> {
    seq![('t' as u8), ('r' as u8), ('u' as u8), ('e' as u8)]
}

/// `false`
pub open spec fn lit_false() -> Seq<u8> {
    seq![('f' as u8), ('a' as u8), ('l' as u8), ('s' as u8), ('e' as u8)]
}

/// `null`
pub open spec fn lit_null() -> Seq<u8> {
    seq![('n' as u8), ('u' as u8), ('l' as u8), ('l' as u8)]
}

/// A byte that may appear in a skipped number token.
pub open spec fn is_num_byte(b: u8) -> bool {
    is_digit(b) || b == 0x2b || b == 0x2d || b == 0x2e || b == 0x65 || b == 0x45
}

/// End of the number-shaped run that starts at `i`.
pub open spec fn num_run_end(s: Seq<u8>, i: int) -> int
    decreases s.len() - i,
{
    if 0 <= i < s.len() && is_num_byte(s[i]) {
        num_run_end(s, i + 1)
    } else {
        i
    }
}

/// A skipped string, quotes included: the index after the closing quote.
pub open spec fn skip_string(s: Seq<u8>, i: int) -> Option<int> {
    if 0 <= i < s.len() && s[i] == 0x22 {
        let j = scan_to(s, i + 1, 0x22);
        if j < s.len() {
            Some(j + 1)
        } else {
            None
        }
    } else {
        None
    }
}

/// A skipped scalar: `true`, `false`, `null`, or a number-shaped token.
pub open spec fn skip_scalar(s: Seq<u8>, i: int) -> Option<int> {
    if parse_lit(s, i, lit_true()) is Some {
        parse_lit(s, i, lit_true())
    } else if parse_lit(s, i, lit_false()) is Some {
        parse_lit(s, i, lit_false())
    } else if parse_lit(s, i, lit_null()) is Some {
        parse_lit(s, i, lit_null())
    } else {
        let j = num_run_end(s, i);
        if 0 <= i < j {
            Some(j)
        } else {
            None
        }
    }
}

/// A skipped JSON value of any shape. Unknown members carry values the
/// grammar does not interpret; it only brackets them correctly. The guards
/// keep the mutual recursion well-founded.
pub open spec fn skip_value(s: Seq<u8>, i: int) -> Option<int>
    decreases s.len() - i, 0int,
{
    if 0 <= i < s.len() && s[i] == 0x22 {
        skip_string(s, i)
    } else if 0 <= i < s.len() && s[i] == 0x7b {
        if i + 1 < s.len() && s[i + 1] == 0x7d {
            Some(i + 2)
        } else {
            skip_members(s, i + 1)
        }
    } else if 0 <= i < s.len() && s[i] == 0x5b {
        if i + 1 < s.len() && s[i + 1] == 0x5d {
            Some(i + 2)
        } else {
            skip_elements(s, i + 1)
        }
    } else {
        skip_scalar(s, i)
    }
}

/// One or more skipped `key:value` members, then the closing brace.
pub open spec fn skip_members(s: Seq<u8>, i: int) -> Option<int>
    decreases s.len() - i, 1int,
{
    match skip_string(s, i) {
        None => None,
        Some(j) => if i < j && j < s.len() && s[j] == 0x3a {
            match skip_value(s, j + 1) {
                None => None,
                Some(j2) => if j + 1 <= j2 && j2 < s.len() && s[j2] == 0x2c {
                    skip_members(s, j2 + 1)
                } else if j + 1 <= j2 && j2 < s.len() && s[j2] == 0x7d {
                    Some(j2 + 1)
                } else {
                    None
                },
            }
        } else {
            None
        },
    }
}

/// One or more skipped array elements, then the closing bracket.
pub open spec fn skip_elements(s: Seq<u8>, i: int) -> Option<int>
    decreases s.len() - i, 1int,
{
    if 0 <= i <= s.len() {
        match skip_value(s, i) {
            None => None,
            Some(j) => if i < j && j < s.len() && s[j] == 0x2c {
                skip_elements(s, j + 1)
            } else if i < j && j < s.len() && s[j] == 0x5d {
                Some(j + 1)
            } else {
                None
            },
        }
    } else {
        None
    }
}

/// The tail of an object past its known fields: any unknown members are
/// skipped without interpretation, up to and including the closing brace.
pub open spec fn parse_extra_members(s: Seq<u8>, i: int) -> Option<int>
    decreases s.len() - i,
{
    if 0 <= i < s.len() && s[i] == 0x7d {
        Some(i + 1)
    } else if 0 <= i < s.len() && s[i] == 0x2c {
        match skip_string(s, i + 1) {
            None => None,
            Some(j) => if i + 1 < j && j < s.len() && s[j] == 0x3a {
                match skip_value(s, j + 1) {
                    None => None,
                    Some(j2) => if i < j2 && j + 1 <= j2 && j2 <= s.len() {
                        parse_extra_members(s, j2)
                    } else {
                        None
                    },
                }
            } else {
                None
            },
        }
    } else {
        None
    }
}

/// One joint object.
pub open spec fn parse_joint(s: Seq<u8>, i: int) -> Option<(JointView, int)> {
    match parse_lit(s, i, lit_ts_key()) {
        None => None,
        Some(i1) => match parse_nat(s, i1) {
            None => None,
            Some((ts, i2)) => match parse_lit(s, i2, lit_name_key()) {
                None => None,
                Some(i3) => match parse_str_content(s, i3) {
                    None => None,
                    Some((name, i4)) => match parse_lit(s, i4, lit_angle_key()) {
                        None => None,
                        Some(i5) => match parse_fixed(s, i5) {
                            None => None,
                            Some((a, i6)) => match parse_lit(s, i6, lit_velocity_key()) {
                                None => None,
                                Some(i7) => match parse_fixed(s, i7) {
                                    None => None,
                                    Some((v, i8)) => match parse_lit(s, i8, lit_torque_key()) {
                                        None => None,
                                        Some(i9) => match parse_fixed(s, i9) {
                                            None => None,
                                            Some((t, i10)) => match parse_extra_members(
                                                s,
                                                i10,
                                            ) {
                                                None => None,
                                                Some(i11) => Some(
                                                    (
                                                        JointView {
                                                            timestamp: ts,
                                                            name: name,
                                                            angle: a,
                                                            velocity: v,
                                                            torque: t,
                                                        },
                                                        i11,
                                                    ),
                                                ),
                                            },
                                        },
                                    },
                                },
                            },
                        },
                    },
                },
            },
        },
    }
}

/// The joints after the first one: `(',' joint)*` up to the closing bracket,
/// which is left for the caller. The progress guards keep the recursion
/// well-founded; a successful inner parse always moves forward.
pub open spec fn parse_joint_tail(s: Seq<u8>, i: int) -> Option<(Seq<JointView>, int)>
    decreases s.len() - i,
{
    if 0 <= i < s.len() && s[i] == 0x5d {
        Some((Seq::empty(), i))
    } else if 0 <= i < s.len() && s[i] == 0x2c {
        match parse_joint(s, i + 1) {
            None => None,
            Some((j, i2)) => if i < i2 <= s.len() {
                match parse_joint_tail(s, i2) {
                    None => None,
                    Some((rest, i3)) => Some((seq![j] + rest, i3)),
                }
            } else {
                None
            },
        }
    } else {
        None
    }
}

/// The joint array's elements, stopping at (not consuming) the closing
/// bracket.
pub open spec fn parse_joint_list(s: Seq<u8>, i: int) -> Option<(Seq<JointView>, int)> {
    if 0 <= i < s.len() && s[i] == 0x5d {
        Some((Seq::empty(), i))
    } else {
        match parse_joint(s, i) {
            None => None,
            Some((j, i2)) => if i < i2 <= s.len() {
                match parse_joint_tail(s, i2) {
                    None => None,
                    Some((rest, i3)) => Some((seq![j] + rest, i3)),
                }
            } else {
                None
            },
        }
    }
}

/// The snapshot object.
pub open spec fn parse_state(s: Seq<u8>, i: int) -> Option<(StateView, int)> {
    match parse_lit(s, i, lit_ts_key()) {
        None => None,
        Some(i1) => match parse_nat(s, i1) {
            None => None,
            Some((ts, i2)) => match parse_lit(s, i2, lit_source_key()) {
                None => None,
                Some(i3) => match parse_str_content(s, i3) {
                    None => None,
                    Some((sid, i4)) => match parse_lit(s, i4, lit_joints_key()) {
                        None => None,
                        Some(i5) => match parse_joint_list(s, i5) {
                            None => None,
                            Some((js, i6)) => match parse_lit(s, i6, seq![(']' as u8)]) {
                                None => None,
                                Some(i6b) => match parse_extra_members(s, i6b) {
                                    None => None,
                                    Some(i7) => Some(
                                        (
                                            StateView { timestamp: ts, source_id: sid, joints: js },
                                            i7,
                                        ),
                                    ),
                                },
                            },
                        },
                    },
                },
            },
        },
    }
}

/// The whole frame: everything before the first space is the topic, the
/// rest must be exactly one snapshot object.
pub open spec fn spec_decode(s: Seq<u8>) -> Option<(Seq<u8>, StateView)> {
    let k = scan_to(s, 0, 0x20);
    if k >= s.len() {
        None
    } else {
        match parse_state(s, k + 1) {
            None => None,
            Some((st, j)) => if j == s.len() {
                Some((s.subrange(0, k), st))
            } else {
                None
            },
        }
    }
}

// ---------------------------------------------------------------------------
// Facts about runs, digit values and powers of ten.
// ---------------------------------------------------------------------------

/// The powers of ten this module computes with.
pub proof fn lemma_pow10_vals()
    ensures
        pow10(0) == 1,
        pow10(1) == 10,
        pow10(2) == 100,
        pow10(3) == 1000,
        pow10(4) == 10000,
        pow10(5) == 100000,
        pow10(6) == 1000000,
        pow10(13) == 10_000_000_000_000,
        pow10(18) == 1_000_000_000_000_000_000,
        pow10(19) == 10_000_000_000_000_000_000,
{
    reveal_with_fuel(pow10, 21);
}

/// A digit run ends exactly at the first non-digit.
pub proof fn lemma_digit_run(s: Seq<u8>, i: int, j: int)
    requires
        0 <= i <= j <= s.len(),
        forall|k: int| i <= k < j ==> is_digit(#[trigger] s[k]),
        j == s.len() || !is_digit(s[j]),
    ensures
        digit_run_end(s, i) == j,
    decreases j - i,
{
    if i < j {
        lemma_digit_run(s, i + 1, j);
    }
}

/// A digit run never moves backwards.
pub proof fn lemma_digit_run_ge(s: Seq<u8>, i: int)
    ensures
        digit_run_end(s, i) >= i,
    decreases s.len() - i,
{
    if 0 <= i < s.len() && is_digit(s[i]) {
        lemma_digit_run_ge(s, i + 1);
    }
}

/// A digit run reaches at least as far as any all-digit prefix.
pub proof fn lemma_digit_run_lb(s: Seq<u8>, i: int, m: int)
    requires
        0 <= i <= m <= s.len(),
        forall|k: int| i <= k < m ==> is_digit(#[trigger] s[k]),
    ensures
        digit_run_end(s, i) >= m,
    decreases m - i,
{
    if i < m {
        assert(is_digit(s[i]));
        lemma_digit_run_lb(s, i + 1, m);
    } else {
        lemma_digit_run_ge(s, i);
    }
}

/// A scan stops exactly at the first occurrence of the target.
pub proof fn lemma_scan_to(s: Seq<u8>, i: int, j: int, target: u8)
    requires
        0 <= i <= j <= s.len(),
        forall|k: int| i <= k < j ==> #[trigger] s[k] != target,
        j == s.len() || s[j] == target,
    ensures
        scan_to(s, i, target) == j,
    decreases j - i,
{
    if i < j {
        lemma_scan_to(s, i + 1, j, target);
    }
}

/// A digit run's value is bounded by a power of ten in its length.
pub proof fn lemma_digits_val_bound(s: Seq<u8>, i: int, j: int)
    requires
        i <= j,
    ensures
        digits_val(s, i, j) < pow10((j - i) as nat),
    decreases j - i,
{
    if i < j {
        lemma_digits_val_bound(s, i, j - 1);
    }
}

// ---------------------------------------------------------------------------
// Executable parser. Each function returns exactly what its specification
// counterpart denotes.
// ---------------------------------------------------------------------------

/// Reads an unsigned decimal of one to nineteen digits.
fn read_nat(s: &Vec<u8>, i: usize) -> (r: Option<(u64, usize)>)
    requires
        i <= s@.len(),
    ensures
        match r {
            Some((v, j)) => {
                &&& parse_nat(s@, i as int) == Some((v as nat, j as int))
                &&& i < j <= s@.len()
                &&& (v as nat) < pow10((j - i) as nat)
                &&& j - i <= 19
            },
            None => parse_nat(s@, i as int) is None,
        },
{
    proof {
        lemma_pow10_vals();
    }
    let mut j: usize = i;
    let mut acc: u64 = 0;
    while j < s.len() && 0x30 <= s[j] && s[j] <= 0x39 && j - i < 19
        invariant
            i <= j <= s@.len(),
            j - i <= 19,
            forall|k: int| i <= k < j ==> is_digit(#[trigger] s@[k]),
            acc as nat == digits_val(s@, i as int, j as int),
            (acc as nat) < pow10((j - i) as nat),
            pow10(19) == 10_000_000_000_000_000_000,
        decreases s@.len() - j,
    {
        proof {
            lemma_pow10_vals();
            lemma_digits_val_bound(s@, i as int, j as int);
            assert(pow10((j - i) as nat) * 10 == pow10((j - i + 1) as nat));
            assert((acc as nat) * 10 + 9 < pow10((j - i + 1) as nat)) by (nonlinear_arith)
                requires
                    (acc as nat) < pow10((j - i) as nat),
                    pow10((j - i) as nat) * 10 == pow10((j - i + 1) as nat),
            ;
            assert(pow10((j - i + 1) as nat) <= pow10(19)) by {
                lemma_pow10_mono((j - i + 1) as nat, 19);
            }
        }
        acc = acc * 10 + (s[j] - 0x30) as u64;
        j = j + 1;
    }
    if j == i {
        proof {
            assert(digit_run_end(s@, i as int) == i);
        }
        return None;
    }
    if j < s.len() && 0x30 <= s[j] && s[j] <= 0x39 {
        // a twentieth digit follows: the run is too long
        proof {
            assert(is_digit(s@[j as int]));
            lemma_digit_run_lb(s@, i as int, j as int + 1);
        }
        return None;
    }
    proof {
        lemma_digit_run(s@, i as int, j as int);
    }
    Some((acc, j))
}

/// Powers of ten up to one million, for padding fractional digits.
fn pow10_small(k: u64) -> (r: u64)
    requires
        k <= 6,
    ensures
        r as nat == pow10(k as nat),
    decreases k,
{
    proof {
        lemma_pow10_vals();
        lemma_pow10_mono(k as nat, 6);
    }
    if k == 0 {
        1
    } else {
        10 * pow10_small(k - 1)
    }
}

/// Collects the bytes before the next quote.
fn read_str_content(s: &Vec<u8>, i: usize) -> (r: Option<(Vec<u8>, usize)>)
    requires
        i <= s@.len(),
    ensures
        match r {
            Some((content, j)) => {
                &&& parse_str_content(s@, i as int) == Some((content@, j as int))
                &&& i <= j < s@.len()
            },
            None => parse_str_content(s@, i as int) is None,
        },
{
    let mut j: usize = i;
    let mut content: Vec<u8> = Vec::new();
    while j < s.len() && s[j] != 0x22
        invariant
            i <= j <= s@.len(),
            forall|k: int| i <= k < j ==> #[trigger] s@[k] != 0x22,
            content@ == s@.subrange(i as int, j as int),
        decreases s@.len() - j,
    {
        content.push(s[j]);
        j = j + 1;
        assert(content@ =~= s@.subrange(i as int, j as int));
    }
    proof {
        lemma_scan_to(s@, i as int, j as int, 0x22);
    }
    if j == s.len() {
        None
    } else {
        Some((content, j))
    }
}

/// Matches a fixed token of the grammar.
fn eat_lit(s: &Vec<u8>, i: usize, lit: &Vec<u8>) -> (r: Option<usize>)
    requires
        i <= s@.len(),
    ensures
        match r {
            Some(j) => {
                &&& parse_lit(s@, i as int, lit@) == Some(j as int)
                &&& j as int == i + lit@.len()
                &&& i <= j <= s@.len()
            },
            None => parse_lit(s@, i as int, lit@) is None,
        },
{
    let n: usize = s.len();
    let w: usize = lit.len();
    if n - i < w {
        return None;
    }
    let mut k: usize = 0;
    while k < w
        invariant
            0 <= k <= w,
            w == lit@.len(),
            n == s@.len(),
            i + w <= n,
            forall|m: int| 0 <= m < k ==> #[trigger] s@[i + m] == lit@[m],
        decreases w - k,
    {
        if s[i + k] != lit[k] {
            proof {
                let sub = s@.subrange(i as int, i + lit@.len());
                assert(sub[k as int] == s@[i + k]);
                assert(sub != lit@);
            }
            return None;
        }
        k = k + 1;
    }
    proof {
        let sub = s@.subrange(i as int, i + lit@.len());
        assert(forall|m: int| 0 <= m < lit@.len() ==> #[trigger] sub[m] == s@[i + m]);
        assert(sub =~= lit@);
    }
    Some(i + w)
}

/// Powers of ten are monotone in the exponent.
proof fn lemma_pow10_mono(a: nat, b: nat)
    requires
        a <= b,
    ensures
        pow10(a) <= pow10(b),
    decreases b,
{
    if a < b {
        lemma_pow10_mono(a, (b - 1) as nat);
        assert(pow10(b) == 10 * pow10((b - 1) as nat));
    }
}

/// Reads a fixed-point value.
fn read_fixed(s: &Vec<u8>, i: usize) -> (r: Option<(i64, usize)>)
    requires
        i <= s@.len(),
    ensures
        match r {
            Some((v, j)) => {
                &&& parse_fixed(s@, i as int) == Some((v as int, j as int))
                &&& i < j <= s@.len()
            },
            None => parse_fixed(s@, i as int) is None,
        },
{
    proof {
        lemma_pow10_vals();
    }
    let neg: bool = i < s.len() && s[i] == 0x2d;
    let i0: usize = if neg {
        i + 1
    } else {
        i
    };
    let (a, i1) = match read_nat(s, i0) {
        None => {
            return None;
        },
        Some(p) => p,
    };
    let (m, i3): (u64, usize) = if i1 < s.len() && s[i1] == 0x2e {
        let (f, i2) = match read_nat(s, i1 + 1) {
            None => {
                return None;
            },
            Some(p) => p,
        };
        let frac_digits: usize = i2 - (i1 + 1);
        if frac_digits > 6 {
            return None;
        }
        let pad = pow10_small(6 - frac_digits as u64);
        proof {
            lemma_pow10_vals();
            lemma_pow10_mul(frac_digits as nat, (6 - frac_digits) as nat);
            assert((f as nat) * (pad as nat) < 1000000) by (nonlinear_arith)
                requires
                    (f as nat) < pow10(frac_digits as nat),
                    pad as nat == pow10((6 - frac_digits) as nat),
                    pow10(frac_digits as nat) * pow10((6 - frac_digits) as nat) == pow10(6),
                    pow10(6) == 1000000,
            ;
        }
        if a > 9_223_372_036_854 {
            proof {
                assert(a as nat * 1000000 > i64::MAX) by (nonlinear_arith)
                    requires
                        a as nat >= 9_223_372_036_855,
                ;
            }
            return None;
        }
        let frac: u64 = f * pad;
        let total: u64 = a * SCALE + frac;
        if total > 0x7fff_ffff_ffff_ffff {
            return None;
        }
        (total, i2)
    } else {
        if a > 9_223_372_036_854 {
            proof {
                assert(a as nat * 1000000 > i64::MAX) by (nonlinear_arith)
                    requires
                        a as nat >= 9_223_372_036_855,
                ;
            }
            return None;
        }
        let total: u64 = a * SCALE;
        if total > 0x7fff_ffff_ffff_ffff {
            return None;
        }
        (total, i1)
    };
    if neg {
        Some((-(m as i64), i3))
    } else {
        Some((m as i64, i3))
    }
}


/// A number-shaped run ends exactly at the first byte outside its class.
pub proof fn lemma_num_run(s: Seq<u8>, i: int, j: int)
    requires
        0 <= i <= j <= s.len(),
        forall|k: int| i <= k < j ==> is_num_byte(#[trigger] s[k]),
        j == s.len() || !is_num_byte(s[j]),
    ensures
        num_run_end(s, i) == j,
    decreases j - i,
{
    if i < j {
        lemma_num_run(s, i + 1, j);
    }
}

/// Builds `true`.
fn lit_true_vec() -> (v: Vec<u8>)
    ensures
        v@ == lit_true(),
{
    let mut v: Vec<u8> = Vec::new();
    v.push('t' as u8);
    v.push('r' as u8);
    v.push('u' as u8);
    v.push('e' as u8);
    assert(v@ =~= lit_true());
    v
}

/// Builds `false`.
fn lit_false_vec() -> (v: Vec<u8>)
    ensures
        v@ == lit_false(),
{
    let mut v: Vec<u8> = Vec::new();
    v.push('f' as u8);
    v.push('a' as u8);
    v.push('l' as u8);
    v.push('s' as u8);
    v.push('e' as u8);
    assert(v@ =~= lit_false());
    v
}

/// Builds `null`.
fn lit_null_vec() -> (v: Vec<u8>)
    ensures
        v@ == lit_null(),
{
    let mut v: Vec<u8> = Vec::new();
    v.push('n' as u8);
    v.push('u' as u8);
    v.push('l' as u8);
    v.push('l' as u8);
    assert(v@ =~= lit_null());
    v
}

/// Skips one string token.
fn sk_string(s: &Vec<u8>, i: usize) -> (r: Option<usize>)
    requires
        i <= s@.len(),
    ensures
        match r {
            Some(j) => skip_string(s@, i as int) == Some(j as int) && i + 2 <= j <= s@.len(),
            None => skip_string(s@, i as int) is None,
        },
{
    if !(i < s.len() && s[i] == 0x22) {
        return None;
    }
    let n: usize = s.len();
    let mut j: usize = i + 1;
    while j < n && s[j] != 0x22
        invariant
            i + 1 <= j <= n,
            n == s@.len(),
            forall|m: int| i + 1 <= m < j ==> #[trigger] s@[m] != 0x22,
        decreases n - j,
    {
        j = j + 1;
    }
    proof {
        lemma_scan_to(s@, i as int + 1, j as int, 0x22);
    }
    if j == n {
        None
    } else {
        Some(j + 1)
    }
}

/// Skips one scalar token.
fn sk_scalar(s: &Vec<u8>, i: usize) -> (r: Option<usize>)
    requires
        i <= s@.len(),
    ensures
        match r {
            Some(j) => skip_scalar(s@, i as int) == Some(j as int) && i < j <= s@.len(),
            None => skip_scalar(s@, i as int) is None,
        },
{
    let lt = lit_true_vec();
    if let Some(j) = eat_lit(s, i, &lt) {
        return Some(j);
    }
    let lf = lit_false_vec();
    if let Some(j) = eat_lit(s, i, &lf) {
        return Some(j);
    }
    let ln = lit_null_vec();
    if let Some(j) = eat_lit(s, i, &ln) {
        return Some(j);
    }
    let n: usize = s.len();
    let mut j: usize = i;
    while j < n && (0x30 <= s[j] && s[j] <= 0x39 || s[j] == 0x2b || s[j] == 0x2d || s[j] == 0x2e
        || s[j] == 0x65 || s[j] == 0x45)
        invariant
            i <= j <= n,
            n == s@.len(),
            forall|m: int| i <= m < j ==> is_num_byte(#[trigger] s@[m]),
        decreases n - j,
    {
        j = j + 1;
    }
    proof {
        lemma_num_run(s@, i as int, j as int);
    }
    if j == i {
        None
    } else {
        Some(j)
    }
}

/// Skips one value of any shape.
fn sk_value(s: &Vec<u8>, i: usize) -> (r: Option<usize>)
    requires
        i <= s@.len(),
    ensures
        match r {
            Some(j) => skip_value(s@, i as int) == Some(j as int) && i < j <= s@.len(),
            None => skip_value(s@, i as int) is None,
        },
    decreases s@.len() - i, 0int,
{
    if i < s.len() && s[i] == 0x22 {
        return sk_string(s, i);
    }
    if i < s.len() && s[i] == 0x7b {
        if i + 1 < s.len() && s[i + 1] == 0x7d {
            return Some(i + 2);
        }
        return sk_members(s, i + 1);
    }
    if i < s.len() && s[i] == 0x5b {
        if i + 1 < s.len() && s[i + 1] == 0x5d {
            return Some(i + 2);
        }
        return sk_elements(s, i + 1);
    }
    sk_scalar(s, i)
}

/// Skips members up to and including a closing brace.
fn sk_members(s: &Vec<u8>, i: usize) -> (r: Option<usize>)
    requires
        i <= s@.len(),
    ensures
        match r {
            Some(j) => skip_members(s@, i as int) == Some(j as int) && i < j <= s@.len(),
            None => skip_members(s@, i as int) is None,
        },
    decreases s@.len() - i, 1int,
{
    let j = match sk_string(s, i) {
        None => {
            return None;
        },
        Some(x) => x,
    };
    if !(j < s.len() && s[j] == 0x3a) {
        return None;
    }
    let j2 = match sk_value(s, j + 1) {
        None => {
            return None;
        },
        Some(x) => x,
    };
    if j2 < s.len() && s[j2] == 0x2c {
        return sk_members(s, j2 + 1);
    }
    if j2 < s.len() && s[j2] == 0x7d {
        return Some(j2 + 1);
    }
    None
}

/// Skips elements up to and including a closing bracket.
fn sk_elements(s: &Vec<u8>, i: usize) -> (r: Option<usize>)
    requires
        i <= s@.len(),
    ensures
        match r {
            Some(j) => skip_elements(s@, i as int) == Some(j as int) && i < j <= s@.len(),
            None => skip_elements(s@, i as int) is None,
        },
    decreases s@.len() - i, 1int,
{
    let j = match sk_value(s, i) {
        None => {
            return None;
        },
        Some(x) => x,
    };
    if j < s.len() && s[j] == 0x2c {
        return sk_elements(s, j + 1);
    }
    if j < s.len() && s[j] == 0x5d {
        return Some(j + 1);
    }
    None
}

/// Reads an object tail: unknown members are skipped, the brace consumed.
fn eat_extra_members(s: &Vec<u8>, i: usize) -> (r: Option<usize>)
    requires
        i <= s@.len(),
    ensures
        match r {
            Some(j) => parse_extra_members(s@, i as int) == Some(j as int) && i < j <= s@.len(),
            None => parse_extra_members(s@, i as int) is None,
        },
    decreases s@.len() - i,
{
    if i < s.len() && s[i] == 0x7d {
        return Some(i + 1);
    }
    if !(i < s.len() && s[i] == 0x2c) {
        return None;
    }
    let j = match sk_string(s, i + 1) {
        None => {
            return None;
        },
        Some(x) => x,
    };
    if !(j < s.len() && s[j] == 0x3a) {
        return None;
    }
    let j2 = match sk_value(s, j + 1) {
        None => {
            return None;
        },
        Some(x) => x,
    };
    eat_extra_members(s, j2)
}

/// Builds an owned copy of a grammar token, for matching.
fn lit_vec_of(which: u8) -> (r: Vec<u8>)
    requires
        which < 7,
    ensures
        which == 0 ==> r@ == lit_ts_key(),
        which == 1 ==> r@ == lit_source_key(),
        which == 2 ==> r@ == lit_joints_key(),
        which == 3 ==> r@ == lit_name_key(),
        which == 4 ==> r@ == lit_angle_key(),
        which == 5 ==> r@ == lit_velocity_key(),
        which == 6 ==> r@ == lit_torque_key(),
{
    let mut v: Vec<u8> = Vec::new();
    if which == 0 {
        push_ts_key(&mut v);
    } else if which == 1 {
        push_source_key(&mut v);
    } else if which == 2 {
        push_joints_key(&mut v);
    } else if which == 3 {
        push_name_key(&mut v);
    } else if which == 4 {
        push_angle_key(&mut v);
    } else if which == 5 {
        push_velocity_key(&mut v);
    } else {
        push_torque_key(&mut v);
    }
    v
}

/// The joint views of a vector of readings.
pub open spec fn joints_view(js: Seq<JointAngles>) -> Seq<JointView> {
    js.map_values(|j: JointAngles| j@)
}

/// Reads one joint object.
fn read_joint(s: &Vec<u8>, i: usize) -> (r: Option<(JointAngles, usize)>)
    requires
        i <= s@.len(),
    ensures
        match r {
            Some((j, p)) => {
                &&& parse_joint(s@, i as int) == Some((j@, p as int))
                &&& i < p <= s@.len()
            },
            None => parse_joint(s@, i as int) is None,
        },
{
    let lit_open = lit_vec_of(0);
    let i1 = match eat_lit(s, i, &lit_open) {
        None => {
            return None;
        },
        Some(x) => x,
    };
    let (ts, i2) = match read_nat(s, i1) {
        None => {
            return None;
        },
        Some(x) => x,
    };
    let lit_name = lit_vec_of(3);
    let i3 = match eat_lit(s, i2, &lit_name) {
        None => {
            return None;
        },
        Some(x) => x,
    };
    let (name, i4) = match read_str_content(s, i3) {
        None => {
            return None;
        },
        Some(x) => x,
    };
    let lit_angle = lit_vec_of(4);
    let i5 = match eat_lit(s, i4, &lit_angle) {
        None => {
            return None;
        },
        Some(x) => x,
    };
    let (angle, i6) = match read_fixed(s, i5) {
        None => {
            return None;
        },
        Some(x) => x,
    };
    let lit_vel = lit_vec_of(5);
    let i7 = match eat_lit(s, i6, &lit_vel) {
        None => {
            return None;
        },
        Some(x) => x,
    };
    let (vel, i8) = match read_fixed(s, i7) {
        None => {
            return None;
        },
        Some(x) => x,
    };
    let lit_torque = lit_vec_of(6);
    let i9 = match eat_lit(s, i8, &lit_torque) {
        None => {
            return None;
        },
        Some(x) => x,
    };
    let (torque, i10) = match read_fixed(s, i9) {
        None => {
            return None;
        },
        Some(x) => x,
    };
    let i11 = match eat_extra_members(s, i10) {
        None => {
            return None;
        },
        Some(x) => x,
    };
    let j = JointAngles {
        timestamp: ts,
        joint_name: name,
        angle_urad: angle,
        velocity_urad: vel,
        torque_unm: torque,
    };
    Some((j, i11))
}

/// Reads the joints after the first one, up to the closing bracket.
fn read_joint_tail(s: &Vec<u8>, i: usize) -> (r: Option<(Vec<JointAngles>, usize)>)
    requires
        i <= s@.len(),
    ensures
        match r {
            Some((js, p)) => {
                &&& parse_joint_tail(s@, i as int) == Some((joints_view(js@), p as int))
                &&& i <= p <= s@.len()
            },
            None => parse_joint_tail(s@, i as int) is None,
        },
    decreases s@.len() - i,
{
    if i < s.len() && s[i] == 0x5d {
        let e: Vec<JointAngles> = Vec::new();
        assert(joints_view(e@) =~= Seq::<JointView>::empty());
        return Some((e, i));
    }
    if !(i < s.len() && s[i] == 0x2c) {
        return None;
    }
    let (j0, i2) = match read_joint(s, i + 1) {
        None => {
            return None;
        },
        Some(x) => x,
    };
    let (mut rest, i3) = match read_joint_tail(s, i2) {
        None => {
            return None;
        },
        Some(x) => x,
    };
    let mut out: Vec<JointAngles> = Vec::new();
    out.push(j0);
    out.append(&mut rest);
    proof {
        assert(joints_view(out@) =~= seq![j0@] + joints_view(out@.drop_first()));
    }
    Some((out, i3))
}

/// Reads the joint array's elements, stopping at the closing bracket.
fn read_joint_list(s: &Vec<u8>, i: usize) -> (r: Option<(Vec<JointAngles>, usize)>)
    requires
        i <= s@.len(),
    ensures
        match r {
            Some((js, p)) => {
                &&& parse_joint_list(s@, i as int) == Some((joints_view(js@), p as int))
                &&& i <= p <= s@.len()
            },
            None => parse_joint_list(s@, i as int) is None,
        },
{
    if i < s.len() && s[i] == 0x5d {
        let e: Vec<JointAngles> = Vec::new();
        assert(joints_view(e@) =~= Seq::<JointView>::empty());
        return Some((e, i));
    }
    let (j0, i2) = match read_joint(s, i) {
        None => {
            return None;
        },
        Some(x) => x,
    };
    let (mut rest, i3) = match read_joint_tail(s, i2) {
        None => {
            return None;
        },
        Some(x) => x,
    };
    let mut out: Vec<JointAngles> = Vec::new();
    out.push(j0);
    out.append(&mut rest);
    proof {
        assert(joints_view(out@) =~= seq![j0@] + joints_view(out@.drop_first()));
    }
    Some((out, i3))
}

/// Reads the snapshot object.
fn read_state(s: &Vec<u8>, i: usize) -> (r: Option<(RobotState, usize)>)
    requires
        i <= s@.len(),
    ensures
        match r {
            Some((st, p)) => {
                &&& parse_state(s@, i as int) == Some((st@, p as int))
                &&& i < p <= s@.len()
            },
            None => parse_state(s@, i as int) is None,
        },
{
    let lit_open = lit_vec_of(0);
    let i1 = match eat_lit(s, i, &lit_open) {
        None => {
            return None;
        },
        Some(x) => x,
    };
    let (ts, i2) = match read_nat(s, i1) {
        None => {
            return None;
        },
        Some(x) => x,
    };
    let lit_source = lit_vec_of(1);
    let i3 = match eat_lit(s, i2, &lit_source) {
        None => {
            return None;
        },
        Some(x) => x,
    };
    let (sid, i4) = match read_str_content(s, i3) {
        None => {
            return None;
        },
        Some(x) => x,
    };
    let lit_joints = lit_vec_of(2);
    let i5 = match eat_lit(s, i4, &lit_joints) {
        None => {
            return None;
        },
        Some(x) => x,
    };
    let (js, i6) = match read_joint_list(s, i5) {
        None => {
            return None;
        },
        Some(x) => x,
    };
    let mut rb: Vec<u8> = Vec::new();
    rb.push(0x5d);
    assert(rb@ =~= seq![(']' as u8)]);
    let i6b = match eat_lit(s, i6, &rb) {
        None => {
            return None;
        },
        Some(x) => x,
    };
    let i7 = match eat_extra_members(s, i6b) {
        None => {
            return None;
        },
        Some(x) => x,
    };
    let st = RobotState { timestamp: ts, source_id: sid, joints: js };
    Some((st, i7))
}

/// Parses a text frame back into its topic and robot state.
///
/// The result is exactly what the grammar function `spec_decode` denotes:
/// a frame is rejected if and only if it has no space separator or its
/// payload is not a well-shaped snapshot object.
pub fn decode(frame: &Vec<u8>) -> (r: Result<(Vec<u8>, RobotState), DecodeError>)
    ensures
        match r {
            Ok((topic, st)) => spec_decode(frame@) == Some((topic@, st@)),
            Err(e) => spec_decode(frame@) is None && e == DecodeError::Malformed,
        },
{
    let n: usize = frame.len();
    let mut k: usize = 0;
    while k < n && frame[k] != 0x20
        invariant
            0 <= k <= n,
            n == frame@.len(),
            forall|m: int| 0 <= m < k ==> #[trigger] frame@[m] != 0x20,
        decreases n - k,
    {
        k = k + 1;
    }
    proof {
        lemma_scan_to(frame@, 0, k as int, 0x20);
    }
    if k == n {
        return Err(DecodeError::Malformed);
    }
    let mut topic: Vec<u8> = Vec::new();
    let mut m: usize = 0;
    while m < k
        invariant
            0 <= m <= k <= n,
            n == frame@.len(),
            topic@ == frame@.subrange(0, m as int),
        decreases k - m,
    {
        topic.push(frame[m]);
        m = m + 1;
        assert(topic@ =~= frame@.subrange(0, m as int));
    }
    let (st, j) = match read_state(frame, k + 1) {
        None => {
            return Err(DecodeError::Malformed);
        },
        Some(x) => x,
    };
    if j != n {
        return Err(DecodeError::Malformed);
    }
    Ok((topic, st))
}

/// Powers of ten multiply by adding exponents.
proof fn lemma_pow10_mul(a: nat, b: nat)
    ensures
        pow10(a) * pow10(b) == pow10((a + b) as nat),
    decreases a,
{
    if a > 0 {
        lemma_pow10_mul((a - 1) as nat, b);
        assert(pow10(a) * pow10(b) == 10 * (pow10((a - 1) as nat) * pow10(b)))
            by (nonlinear_arith)
            requires
                pow10(a) == 10 * pow10((a - 1) as nat),
        ;
        assert((a - 1 + b) as nat == (a + b - 1) as nat);
        assert(pow10((a + b) as nat) == 10 * pow10((a + b - 1) as nat));
        assert(pow10(a) * pow10(b) == 10 * pow10((a - 1 + b) as nat));
    } else {
        assert(pow10(a) == 1);
        assert(pow10(a) * pow10(b) == pow10(b)) by (nonlinear_arith)
            requires
                pow10(a) == 1,
        ;
    }
}

} // verus!
