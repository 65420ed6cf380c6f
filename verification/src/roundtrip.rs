//! The codec's round-trip law: decoding an encoded frame yields exactly the
//! topic and state that were encoded.

use vstd::prelude::*;
use vstd::arithmetic::div_mod::lemma_fundamental_div_mod;
use crate::state::{JointView, StateView, MAX_TICK, plain_text, wf_joint, wf_state, wf_topic};
use crate::codec::{
    dec_nat, dec_pad, dec_digit, digits_val, enc_fixed, enc_frame, enc_joint,
    enc_joint_list, enc_mag, enc_state, is_digit, lemma_digit_run, lemma_pow10_vals,
    lemma_scan_to, lit_joints_key, lit_name_key, lit_source_key,
    lit_state_end, lit_torque_key, lit_ts_key, lit_velocity_key, lit_angle_key, lit_joint_end,
    parse_extra_members, parse_fixed, parse_joint,
    parse_joint_list, parse_joint_tail, parse_lit, parse_nat, parse_state, parse_str_content,
    pow10, spec_decode, SCALE,
};

verus! {

/// A region known to hold `x + y` splits into a region holding `x` and a
/// region holding `y`.
proof fn lemma_split(s: Seq<u8>, i: int, x: Seq<u8>, y: Seq<u8>)
    requires
        0 <= i,
        i + x.len() + y.len() <= s.len(),
        s.subrange(i, i + x.len() + y.len()) == x + y,
    ensures
        s.subrange(i, i + x.len()) == x,
        s.subrange(i + x.len(), i + x.len() + y.len()) == y,
{
    let xy = x + y;
    assert forall|q: int| 0 <= q < x.len() implies s[i + q] == x[q] by {
        assert(s.subrange(i, i + xy.len())[q] == xy[q]);
    }
    assert forall|q: int| 0 <= q < y.len() implies s[i + x.len() + q] == y[q] by {
        assert(s.subrange(i, i + xy.len())[x.len() + q] == xy[x.len() + q]);
    }
    assert(s.subrange(i, i + x.len()) =~= x);
    assert(s.subrange(i + x.len(), i + x.len() + y.len()) =~= y);
}

/// The first byte of a region known to hold `p`.
proof fn lemma_first_byte(s: Seq<u8>, i: int, p: Seq<u8>)
    requires
        0 <= i,
        i + p.len() <= s.len(),
        p.len() >= 1,
        s.subrange(i, i + p.len()) == p,
    ensures
        s[i] == p[0],
{
    assert(s.subrange(i, i + p.len())[0] == p[0]);
}

/// Every byte of a printed number is a digit, and there is at least one.
proof fn lemma_dec_nat_digits(n: nat)
    ensures
        dec_nat(n).len() >= 1,
        forall|k: int| 0 <= k < dec_nat(n).len() ==> is_digit(#[trigger] dec_nat(n)[k]),
    decreases n,
{
    if n >= 10 {
        lemma_dec_nat_digits(n / 10);
        assert(dec_nat(n) == dec_nat(n / 10).push(dec_digit(n % 10)));
        assert(is_digit(dec_digit(n % 10)));
    }
}

/// A number below the `k`-th power of ten prints in at most `k` digits.
proof fn lemma_dec_nat_len(n: nat, k: nat)
    requires
        1 <= k,
        n < pow10(k),
    ensures
        dec_nat(n).len() <= k,
    decreases n,
{
    if n >= 10 {
        if k == 1 {
            assert(pow10(1) == 10) by {
                lemma_pow10_vals();
            }
            assert(false);
        }
        assert(pow10(k) == 10 * pow10((k - 1) as nat));
        assert(n / 10 < pow10((k - 1) as nat)) by (nonlinear_arith)
            requires
                n < 10 * pow10((k - 1) as nat),
        ;
        lemma_dec_nat_len(n / 10, (k - 1) as nat);
    }
}

/// The padded form is exactly `w` digits long.
proof fn lemma_dec_pad_len(n: nat, w: nat)
    ensures
        dec_pad(n, w).len() == w,
        forall|k: int| 0 <= k < w ==> is_digit(#[trigger] dec_pad(n, w)[k]),
    decreases w,
{
    if w > 0 {
        lemma_dec_pad_len(n / 10, (w - 1) as nat);
        assert(dec_pad(n, w) == dec_pad(n / 10, (w - 1) as nat).push(dec_digit(n % 10)));
        assert(is_digit(dec_digit(n % 10)));
    }
}

/// Digits embedded in a larger sequence evaluate back to the printed number.
proof fn lemma_digits_val_dec(s: Seq<u8>, i: int, n: nat)
    requires
        0 <= i,
        i + dec_nat(n).len() <= s.len(),
        s.subrange(i, i + dec_nat(n).len()) == dec_nat(n),
    ensures
        digits_val(s, i, i + dec_nat(n).len()) == n,
        forall|k: int| i <= k < i + dec_nat(n).len() ==> is_digit(#[trigger] s[k]),
    decreases n,
{
    let d = dec_nat(n);
    lemma_dec_nat_digits(n);
    assert forall|k: int| i <= k < i + d.len() implies is_digit(#[trigger] s[k]) by {
        assert(s.subrange(i, i + d.len())[k - i] == d[k - i]);
    }
    if n < 10 {
        assert(s.subrange(i, i + 1)[0] == d[0]);
        assert(s[i] == dec_digit(n));
        assert(digits_val(s, i, i) == 0);
        assert(digits_val(s, i, i + 1) == n);
    } else {
        let dp = dec_nat(n / 10);
        assert(d == dp.push(dec_digit(n % 10)));
        assert forall|k: int| 0 <= k < dp.len() implies s.subrange(i, i + dp.len())[k]
            == dp[k] by {
            assert(s.subrange(i, i + d.len())[k] == d[k]);
            assert(d[k] == dp[k]);
        }
        assert(s.subrange(i, i + dp.len()) =~= dp);
        lemma_digits_val_dec(s, i, n / 10);
        assert(s.subrange(i, i + d.len())[d.len() - 1] == d[d.len() - 1]);
        assert(s[i + d.len() - 1] == dec_digit(n % 10));
        assert(digits_val(s, i, i + d.len()) == digits_val(s, i, i + d.len() - 1) * 10 + (n
            % 10));
        lemma_fundamental_div_mod(n as int, 10);
    }
}

/// Padded digits embedded in a larger sequence evaluate back to the number.
proof fn lemma_digits_val_pad(s: Seq<u8>, i: int, f: nat, w: nat)
    requires
        0 <= i,
        i + w <= s.len(),
        f < pow10(w),
        s.subrange(i, i + w) == dec_pad(f, w),
    ensures
        digits_val(s, i, i + w) == f,
        forall|k: int| i <= k < i + w ==> is_digit(#[trigger] s[k]),
    decreases w,
{
    let d = dec_pad(f, w);
    lemma_dec_pad_len(f, w);
    assert forall|k: int| i <= k < i + w implies is_digit(#[trigger] s[k]) by {
        assert(s.subrange(i, i + w)[k - i] == d[k - i]);
    }
    if w == 0 {
        assert(f == 0);
        assert(digits_val(s, i, i) == 0);
    } else {
        let dp = dec_pad(f / 10, (w - 1) as nat);
        assert(d == dp.push(dec_digit(f % 10)));
        lemma_dec_pad_len(f / 10, (w - 1) as nat);
        assert forall|k: int| 0 <= k < dp.len() implies s.subrange(i, i + w - 1)[k] == dp[k] by {
            assert(s.subrange(i, i + w)[k] == d[k]);
            assert(d[k] == dp[k]);
        }
        assert(s.subrange(i, i + w - 1) =~= dp);
        assert(f / 10 < pow10((w - 1) as nat)) by (nonlinear_arith)
            requires
                f < pow10(w),
                pow10(w) == 10 * pow10((w - 1) as nat),
        ;
        lemma_digits_val_pad(s, i, f / 10, (w - 1) as nat);
        assert(s.subrange(i, i + w)[w - 1] == d[w - 1]);
        assert(s[i + w - 1] == dec_digit(f % 10));
        assert(digits_val(s, i, i + w) == digits_val(s, i, i + w - 1) * 10 + (f % 10));
        lemma_fundamental_div_mod(f as int, 10);
    }
}

/// A printed number embedded before a non-digit parses back to itself.
proof fn lemma_parse_nat_embed(s: Seq<u8>, i: int, n: nat)
    requires
        0 <= i,
        n <= MAX_TICK,
        i + dec_nat(n).len() <= s.len(),
        s.subrange(i, i + dec_nat(n).len()) == dec_nat(n),
        i + dec_nat(n).len() == s.len() || !is_digit(s[i + dec_nat(n).len()]),
    ensures
        parse_nat(s, i) == Some((n, i + dec_nat(n).len())),
{
    let len = dec_nat(n).len() as int;
    lemma_digits_val_dec(s, i, n);
    lemma_digit_run(s, i, i + len);
    lemma_pow10_vals();
    lemma_dec_nat_len(n, 19);
}

/// A plain string embedded before a quote parses back to itself.
proof fn lemma_parse_str_embed(s: Seq<u8>, i: int, t: Seq<u8>)
    requires
        0 <= i,
        i + t.len() < s.len(),
        plain_text(t),
        s.subrange(i, i + t.len()) == t,
        s[i + t.len()] == 0x22,
    ensures
        parse_str_content(s, i) == Some((t, i + t.len())),
{
    assert forall|k: int| i <= k < i + t.len() implies #[trigger] s[k] != 0x22 by {
        assert(s.subrange(i, i + t.len())[k - i] == t[k - i]);
        assert(crate::state::plain_byte(t[k - i]));
    }
    lemma_scan_to(s, i, i + t.len(), 0x22);
}

/// A printed fixed-point value embedded before a non-digit parses back
/// to itself.
proof fn lemma_parse_fixed_embed(s: Seq<u8>, i: int, v: int)
    requires
        0 <= i,
        i64::MIN < v <= i64::MAX,
        i + enc_fixed(v).len() <= s.len(),
        s.subrange(i, i + enc_fixed(v).len()) == enc_fixed(v),
        i + enc_fixed(v).len() == s.len() || !is_digit(s[i + enc_fixed(v).len()]),
    ensures
        parse_fixed(s, i) == Some((v, i + enc_fixed(v).len())),
{
    lemma_pow10_vals();
    let e = enc_fixed(v);
    let m = if v < 0 {
        (-v) as nat
    } else {
        v as nat
    };
    let a = m / (SCALE as nat);
    let f = m % (SCALE as nat);
    let da = dec_nat(a);
    let i0 = if v < 0 {
        i + 1
    } else {
        i
    };
    lemma_dec_nat_digits(a);
    lemma_dec_pad_len(f, 6);
    // peel the sign, if any, so the magnitude sits at `i0`
    if v < 0 {
        assert(e == seq![(0x2d as u8)] + enc_mag(m));
        lemma_split(s, i, seq![(0x2d as u8)], enc_mag(m));
        lemma_first_byte(s, i, seq![(0x2d as u8)]);
        assert(s[i] == 0x2d);
    } else {
        assert(e == enc_mag(m));
    }
    assert(s.subrange(i0, i0 + enc_mag(m).len()) == enc_mag(m));
    // peel the magnitude: integer digits, dot, six padded digits
    assert(enc_mag(m) == (da + seq![(0x2e as u8)]) + dec_pad(f, 6));
    lemma_split(s, i0, da + seq![(0x2e as u8)], dec_pad(f, 6));
    lemma_split(s, i0, da, seq![(0x2e as u8)]);
    let i1 = i0 + da.len() as int;
    lemma_first_byte(s, i1, seq![(0x2e as u8)]);
    assert(s[i1] == 0x2e);
    if v >= 0 {
        lemma_first_byte(s, i0, da);
        assert(is_digit(s[i]));
        assert(s[i] != 0x2d);
    }
    // the integer part ends at the dot
    assert(m <= i64::MAX);
    assert(a < pow10(13)) by (nonlinear_arith)
        requires
            a == m / (SCALE as nat),
            m <= i64::MAX,
            SCALE == 1_000_000,
            pow10(13) == 10_000_000_000_000,
    ;
    assert(a <= MAX_TICK);
    assert(!is_digit(0x2e));
    lemma_parse_nat_embed(s, i0, a);
    lemma_dec_nat_len(a, 13);
    assert(parse_nat(s, i0) == Some((a, i1)));
    // the fractional part ends at the caller's boundary
    assert(f < pow10(6));
    lemma_digits_val_pad(s, i1 + 1, f, 6);
    lemma_digit_run(s, i1 + 1, i1 + 7);
    assert(parse_nat(s, i1 + 1) == Some((f, i1 + 7)));
    // reassembly
    lemma_fundamental_div_mod(m as int, SCALE as int);
    assert(pow10(0) == 1);
    assert(a * (SCALE as nat) + f * pow10(0) == m) by (nonlinear_arith)
        requires
            m == (SCALE as int) * (m as int / (SCALE as int)) + (m as int % (SCALE as int)),
            a == m / (SCALE as nat),
            f == m % (SCALE as nat),
            pow10(0) == 1,
    ;
    assert(parse_fixed(s, i) == Some((v, i + e.len())));
}

/// An encoded joint object embedded in a frame parses back to itself.
#[verifier::rlimit(100)]
proof fn lemma_joint_embed(s: Seq<u8>, i: int, j: JointView)
    requires
        wf_joint(j),
        0 <= i,
        i + enc_joint(j).len() <= s.len(),
        s.subrange(i, i + enc_joint(j).len()) == enc_joint(j),
    ensures
        parse_joint(s, i) == Some((j, i + enc_joint(j).len())),
{
    let p0 = lit_ts_key();
    let p1 = dec_nat(j.timestamp);
    let p2 = lit_name_key();
    let p3 = j.name;
    let p4 = lit_angle_key();
    let p5 = enc_fixed(j.angle);
    let p6 = lit_velocity_key();
    let p7 = enc_fixed(j.velocity);
    let p8 = lit_torque_key();
    let p9 = enc_fixed(j.torque);
    let p10 = lit_joint_end();
    let e = enc_joint(j);
    // peel the pieces off the right, one concatenation at a time
    let x9 = p0 + p1 + p2 + p3 + p4 + p5 + p6 + p7 + p8 + p9;
    let x8 = p0 + p1 + p2 + p3 + p4 + p5 + p6 + p7 + p8;
    let x7 = p0 + p1 + p2 + p3 + p4 + p5 + p6 + p7;
    let x6 = p0 + p1 + p2 + p3 + p4 + p5 + p6;
    let x5 = p0 + p1 + p2 + p3 + p4 + p5;
    let x4 = p0 + p1 + p2 + p3 + p4;
    let x3 = p0 + p1 + p2 + p3;
    let x2 = p0 + p1 + p2;
    let x1 = p0 + p1;
    assert(e == x9 + p10);
    lemma_split(s, i, x9, p10);
    lemma_split(s, i, x8, p9);
    lemma_split(s, i, x7, p8);
    lemma_split(s, i, x6, p7);
    lemma_split(s, i, x5, p6);
    lemma_split(s, i, x4, p5);
    lemma_split(s, i, x3, p4);
    lemma_split(s, i, x2, p3);
    lemma_split(s, i, x1, p2);
    lemma_split(s, i, p0, p1);
    let o1 = i + p0.len() as int;
    let o2 = o1 + p1.len();
    let o3 = o2 + p2.len();
    let o4 = o3 + p3.len();
    let o5 = o4 + p4.len();
    let o6 = o5 + p5.len();
    let o7 = o6 + p6.len();
    let o8 = o7 + p7.len();
    let o9 = o8 + p8.len();
    let o10 = o9 + p9.len();
    let o11 = o10 + p10.len();
    assert(i + e.len() == o11);
    // each step of the grammar
    assert(parse_lit(s, i, p0) == Some(o1));
    lemma_first_byte(s, o2, p2);
    assert(!is_digit(0x2c));
    lemma_parse_nat_embed(s, o1, j.timestamp);
    assert(parse_lit(s, o2, p2) == Some(o3));
    lemma_first_byte(s, o4, p4);
    assert(s[o4] == 0x22);
    lemma_parse_str_embed(s, o3, p3);
    assert(parse_lit(s, o4, p4) == Some(o5));
    lemma_first_byte(s, o6, p6);
    lemma_parse_fixed_embed(s, o5, j.angle);
    assert(parse_lit(s, o6, p6) == Some(o7));
    lemma_first_byte(s, o8, p8);
    lemma_parse_fixed_embed(s, o7, j.velocity);
    assert(parse_lit(s, o8, p8) == Some(o9));
    lemma_first_byte(s, o10, p10);
    assert(!is_digit(0x7d));
    lemma_parse_fixed_embed(s, o9, j.torque);
    assert(s[o10] == 0x7d);
    assert(parse_extra_members(s, o10) == Some(o11));
    assert(JointView {
        timestamp: j.timestamp,
        name: j.name,
        angle: j.angle,
        velocity: j.velocity,
        torque: j.torque,
    } =~= j);
    assert(parse_joint(s, i) == Some((j, o11)));
}

/// The encoding of every joint after the first: a comma before each.
pub open spec fn enc_tail(js: Seq<JointView>) -> Seq<u8>
    decreases js.len(),
{
    if js.len() == 0 {
        Seq::empty()
    } else {
        seq![(0x2c as u8)] + enc_joint(js[0]) + enc_tail(js.drop_first())
    }
}

/// A nonempty joint array encodes as its head followed by its tail form.
proof fn lemma_enc_list_split(js: Seq<JointView>)
    requires
        js.len() >= 1,
    ensures
        enc_joint_list(js) == enc_joint(js[0]) + enc_tail(js.drop_first()),
    decreases js.len(),
{
    if js.len() == 1 {
        assert(enc_tail(js.drop_first()) == Seq::<u8>::empty());
        assert(enc_joint_list(js) =~= enc_joint(js[0]) + enc_tail(js.drop_first()));
    } else {
        let rest = js.drop_first();
        lemma_enc_list_split(rest);
        assert(enc_tail(rest) == seq![(0x2c as u8)] + enc_joint(rest[0]) + enc_tail(
            rest.drop_first()));
        assert(enc_joint_list(js) == enc_joint(js[0]) + seq![(0x2c as u8)] + enc_joint_list(rest));
        assert(enc_joint_list(js) =~= enc_joint(js[0]) + enc_tail(rest));
    }
}

/// An embedded encoded tail, followed by the closing bracket, parses back
/// to the remaining joints.
#[verifier::rlimit(100)]
proof fn lemma_tail_embed(s: Seq<u8>, i: int, js: Seq<JointView>)
    requires
        forall|k: int| 0 <= k < js.len() ==> wf_joint(#[trigger] js[k]),
        0 <= i,
        i + enc_tail(js).len() < s.len(),
        s.subrange(i, i + enc_tail(js).len()) == enc_tail(js),
        s[i + enc_tail(js).len()] == 0x5d,
    ensures
        parse_joint_tail(s, i) == Some((js, i + enc_tail(js).len())),
    decreases js.len(),
{
    let e = enc_tail(js);
    if js.len() == 0 {
        assert(s[i] == 0x5d);
        assert(js =~= Seq::<JointView>::empty());
        assert(parse_joint_tail(s, i) == Some((js, i)));
    } else {
        let ej = enc_joint(js[0]);
        let rest = js.drop_first();
        assert(e == (seq![(0x2c as u8)] + ej) + enc_tail(rest));
        lemma_split(s, i, seq![(0x2c as u8)] + ej, enc_tail(rest));
        lemma_split(s, i, seq![(0x2c as u8)], ej);
        lemma_first_byte(s, i, seq![(0x2c as u8)]);
        assert(s[i] == 0x2c);
        lemma_joint_embed(s, i + 1, js[0]);
        let i2 = i + 1 + ej.len() as int;
        lemma_tail_embed(s, i2, rest);
        assert(seq![js[0]] + rest =~= js);
        assert(parse_joint_tail(s, i) == Some((js, i + e.len())));
    }
}

/// An embedded encoded joint array, followed by the closing bracket,
/// parses back to its joints.
#[verifier::rlimit(100)]
proof fn lemma_list_embed(s: Seq<u8>, i: int, js: Seq<JointView>)
    requires
        forall|k: int| 0 <= k < js.len() ==> wf_joint(#[trigger] js[k]),
        0 <= i,
        i + enc_joint_list(js).len() < s.len(),
        s.subrange(i, i + enc_joint_list(js).len()) == enc_joint_list(js),
        s[i + enc_joint_list(js).len()] == 0x5d,
    ensures
        parse_joint_list(s, i) == Some((js, i + enc_joint_list(js).len())),
{
    let e = enc_joint_list(js);
    if js.len() == 0 {
        assert(s[i] == 0x5d);
        assert(js =~= Seq::<JointView>::empty());
    } else {
        lemma_enc_list_split(js);
        let ej = enc_joint(js[0]);
        let rest = js.drop_first();
        assert(e == ej + enc_tail(rest));
        lemma_split(s, i, ej, enc_tail(rest));
        lemma_joint_embed(s, i, js[0]);
        lemma_first_byte(s, i, ej);
        assert(ej == lit_ts_key() + (dec_nat(js[0].timestamp) + lit_name_key() + js[0].name
            + lit_angle_key() + enc_fixed(js[0].angle) + lit_velocity_key() + enc_fixed(
            js[0].velocity,
        ) + lit_torque_key() + enc_fixed(js[0].torque) + lit_joint_end())) by {
            assert(ej =~= lit_ts_key() + (dec_nat(js[0].timestamp) + lit_name_key() + js[0].name
                + lit_angle_key() + enc_fixed(js[0].angle) + lit_velocity_key() + enc_fixed(
                js[0].velocity,
            ) + lit_torque_key() + enc_fixed(js[0].torque) + lit_joint_end()));
        }
        assert(ej[0] == lit_ts_key()[0]);
        assert(s[i] == 0x7b);
        assert(s[i] != 0x5d);
        let i2 = i + ej.len() as int;
        lemma_tail_embed(s, i2, rest);
        assert(seq![js[0]] + rest =~= js);
        assert(parse_joint_list(s, i) == Some((js, i + e.len())));
    }
}

/// The layout of an embedded encoded snapshot: each piece sits in its own
/// region.
proof fn lemma_state_layout(s: Seq<u8>, i: int, st: StateView)
    requires
        0 <= i,
        i + enc_state(st).len() <= s.len(),
        s.subrange(i, i + enc_state(st).len()) == enc_state(st),
    ensures
        ({
            let p0 = lit_ts_key();
            let p1 = dec_nat(st.timestamp);
            let p2 = lit_source_key();
            let p3 = st.source_id;
            let p4 = lit_joints_key();
            let p5 = enc_joint_list(st.joints);
            let p6 = lit_state_end();
            let o1 = i + p0.len() as int;
            let o2 = o1 + p1.len();
            let o3 = o2 + p2.len();
            let o4 = o3 + p3.len();
            let o5 = o4 + p4.len();
            let o6 = o5 + p5.len();
            let o7 = o6 + p6.len();
            &&& i + enc_state(st).len() == o7
            &&& s.subrange(i, o1) == p0
            &&& s.subrange(o1, o2) == p1
            &&& s.subrange(o2, o3) == p2
            &&& s.subrange(o3, o4) == p3
            &&& s.subrange(o4, o5) == p4
            &&& s.subrange(o5, o6) == p5
            &&& s.subrange(o6, o7) == p6
        }),
{
    let p0 = lit_ts_key();
    let p1 = dec_nat(st.timestamp);
    let p2 = lit_source_key();
    let p3 = st.source_id;
    let p4 = lit_joints_key();
    let p5 = enc_joint_list(st.joints);
    let p6 = lit_state_end();
    let e = enc_state(st);
    let x5 = p0 + p1 + p2 + p3 + p4 + p5;
    let x4 = p0 + p1 + p2 + p3 + p4;
    let x3 = p0 + p1 + p2 + p3;
    let x2 = p0 + p1 + p2;
    let x1 = p0 + p1;
    assert(e == x5 + p6);
    lemma_split(s, i, x5, p6);
    lemma_split(s, i, x4, p5);
    lemma_split(s, i, x3, p4);
    lemma_split(s, i, x2, p3);
    lemma_split(s, i, x1, p2);
    lemma_split(s, i, p0, p1);
}

/// An embedded encoded snapshot parses back to itself.
#[verifier::rlimit(100)]
proof fn lemma_state_embed(s: Seq<u8>, i: int, st: StateView)
    requires
        wf_state(st),
        0 <= i,
        i + enc_state(st).len() <= s.len(),
        s.subrange(i, i + enc_state(st).len()) == enc_state(st),
    ensures
        parse_state(s, i) == Some((st, i + enc_state(st).len())),
{
    let p0 = lit_ts_key();
    let p1 = dec_nat(st.timestamp);
    let p2 = lit_source_key();
    let p3 = st.source_id;
    let p4 = lit_joints_key();
    let p5 = enc_joint_list(st.joints);
    let p6 = lit_state_end();
    let o1 = i + p0.len() as int;
    let o2 = o1 + p1.len();
    let o3 = o2 + p2.len();
    let o4 = o3 + p3.len();
    let o5 = o4 + p4.len();
    let o6 = o5 + p5.len();
    let o7 = o6 + p6.len();
    lemma_state_layout(s, i, st);
    assert(parse_lit(s, i, p0) == Some(o1));
    lemma_first_byte(s, o2, p2);
    assert(!is_digit(0x2c));
    lemma_parse_nat_embed(s, o1, st.timestamp);
    assert(parse_lit(s, o2, p2) == Some(o3));
    lemma_first_byte(s, o4, p4);
    assert(s[o4] == 0x22);
    lemma_parse_str_embed(s, o3, p3);
    assert(parse_lit(s, o4, p4) == Some(o5));
    lemma_first_byte(s, o6, p6);
    assert(s[o6] == 0x5d);
    lemma_list_embed(s, o5, st.joints);
    assert(s.subrange(o6, o6 + 1) =~= seq![(0x5d as u8)]);
    assert(parse_lit(s, o6, seq![(0x5d as u8)]) == Some(o6 + 1));
    assert(s[o6 + 1] == p6[1] && p6[1] == 0x7d) by {
        assert(s.subrange(o6, o7)[1] == s[o6 + 1]);
    }
    assert(parse_extra_members(s, o6 + 1) == Some(o7));
    assert(StateView { timestamp: st.timestamp, source_id: st.source_id, joints: st.joints }
        =~= st);
    assert(parse_state(s, i) == Some((st, o7)));
}

/// Round-trip law: for every well-formed topic and state, decoding the
/// encoded frame yields exactly the same topic and state. Together with the
/// contracts of `encode` and `decode`, this means
/// `decode(encode(topic, state)) == Ok((topic, state))`.
pub proof fn lemma_round_trip(topic: Seq<u8>, st: StateView)
    requires
        wf_topic(topic),
        wf_state(st),
    ensures
        spec_decode(enc_frame(topic, st)) == Some((topic, st)),
{
    let s = enc_frame(topic, st);
    let k = topic.len() as int;
    let es = enc_state(st);
    assert(s == (topic + seq![(0x20 as u8)]) + es);
    assert(s.subrange(0, s.len() as int) =~= s);
    lemma_split(s, 0, topic + seq![(0x20 as u8)], es);
    lemma_split(s, 0, topic, seq![(0x20 as u8)]);
    lemma_first_byte(s, k, seq![(0x20 as u8)]);
    assert(s[k] == 0x20);
    assert forall|q: int| 0 <= q < k implies #[trigger] s[q] != 0x20 by {
        assert(s.subrange(0, k)[q] == topic[q]);
        assert(0x21 <= topic[q] <= 0x7e);
    }
    lemma_scan_to(s, 0, k, 0x20);
    lemma_state_embed(s, k + 1, st);
    assert(spec_decode(s) == Some((topic, st)));
}

} // verus!
