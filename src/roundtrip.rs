use vstd::arithmetic::power::{lemma_pow0, lemma_pow1, lemma_pow_adds, lemma_pow_positive, pow};
use vstd::arithmetic::div_mod::{lemma_div_denominator, lemma_div_multiples_vanish_fancy, lemma_fundamental_div_mod};
use vstd::prelude::*;

use crate::rac::{bit_round_trip, byte_or_ff, decode_step, encode_interval, initial_low, pos_after, renorm_step, scaled_chance, RacState, MAX_RANGE, MIN_RANGE};

verus! {

/// A mirror encoder's state: the low end of its interval as one exact number, the width
/// of the interval, and how many bytes it has shifted out.
pub struct EncoderState {
    pub lo: int,
    pub range: int,
    pub shifts: nat,
}

/// Shifts out a byte when the range has fallen to `MIN_RANGE`.
pub open spec fn encoder_renorm(e: EncoderState) -> EncoderState {
    if e.range <= MIN_RANGE {
        EncoderState { lo: e.lo * 256, range: e.range * 256, shifts: e.shifts + 1 }
    } else {
        e
    }
}

/// Codes `bit` with chance `chance / 4096`, then renormalises twice as the decoder does.
pub open spec fn encoder_step(e: EncoderState, chance: int, bit: bool) -> EncoderState {
    encoder_split(e, scaled_chance(chance, e.range), bit)
}

/// Codes `bit` by keeping the top `c` of the interval for a true bit and the rest for a
/// false one, then renormalises twice.
pub open spec fn encoder_split(e: EncoderState, c: int, bit: bool) -> EncoderState {
    let mid = if bit {
        EncoderState { lo: e.lo + e.range - c, range: c, shifts: e.shifts }
    } else {
        EncoderState { lo: e.lo, range: e.range - c, shifts: e.shifts }
    };
    encoder_renorm(encoder_renorm(mid))
}

/// The encoder after coding `pairs` in order from the full 24-bit interval.
pub open spec fn encoder_run(pairs: Seq<(u32, bool)>) -> EncoderState
    decreases pairs.len(),
{
    if pairs.len() == 0 {
        EncoderState { lo: 0, range: MAX_RANGE as int, shifts: 0 }
    } else {
        let e = encoder_run(pairs.drop_last());
        encoder_step(e, pairs.last().0 as int, pairs.last().1)
    }
}

/// The `k` base-256 digits of `n`, most significant first.
pub open spec fn digits(n: nat, k: nat) -> Seq<u8>
    decreases k,
{
    if k == 0 {
        seq![]
    } else {
        digits(n / 256, (k - 1) as nat).push((n % 256) as u8)
    }
}

/// The bytes a mirror encoder writes for `pairs`: every byte shifted out, then the top
/// byte of the final 24-bit window.
pub open spec fn encoded_bytes(pairs: Seq<(u32, bool)>) -> Seq<u8> {
    let e = encoder_run(pairs);
    digits((e.lo / 0x1_0000) as nat, e.shifts + 1)
}

/// Every chance of `pairs` is in `[1, 4095]`.
pub open spec fn chances_valid(pairs: Seq<(u32, bool)>) -> bool {
    forall|i: int| 0 <= i < pairs.len() ==> 1 <= (#[trigger] pairs[i]).0 < 4096
}

proof fn lemma_scaled_bounds(chance: int, range: int)
    requires
        1 <= chance < 4096,
        MIN_RANGE < range <= MAX_RANGE,
    ensures
        16 <= scaled_chance(chance, range),
        16 <= range - scaled_chance(chance, range),
{
    let q = range / 4096;
    let m = range % 4096;
    assert(q >= 16);
    assert(q * chance >= q) by (nonlinear_arith)
        requires chance >= 1, q >= 0;
    assert(0 <= m * chance);
    assert((m * chance + 2048) / 4096 <= m) by (nonlinear_arith)
        requires 0 <= m < 4096, chance < 4096;
    assert(q * chance + m <= range - q) by (nonlinear_arith)
        requires range == q * 4096 + m, chance <= 4095, q >= 0;
}

/// The encoder keeps a range of more than `MIN_RANGE` and at most 24 bits, and an
/// interval inside the 24-bit window it started with, scaled by the bytes shifted out.
proof fn lemma_encoder_bounds(pairs: Seq<(u32, bool)>)
    requires
        chances_valid(pairs),
    ensures
        MIN_RANGE < encoder_run(pairs).range <= MAX_RANGE,
        0 <= encoder_run(pairs).lo,
        encoder_run(pairs).lo + encoder_run(pairs).range <= MAX_RANGE * pow(256, encoder_run(pairs).shifts),
    decreases pairs.len(),
{
    if pairs.len() > 0 {
        let prev = pairs.drop_last();
        assert forall|i: int| 0 <= i < prev.len() implies 1 <= (#[trigger] prev[i]).0 < 4096 by {
            assert(prev[i] == pairs[i]);
        }
        lemma_encoder_bounds(prev);
        let e = encoder_run(prev);
        let chance = pairs.last().0 as int;
        assert(1 <= chance < 4096) by {
            assert(pairs.last() == pairs[pairs.len() - 1]);
        }
        lemma_scaled_bounds(chance, e.range);
        let c = scaled_chance(chance, e.range);
        let bit = pairs.last().1;
        let mid = if bit {
            EncoderState { lo: e.lo + e.range - c, range: c, shifts: e.shifts }
        } else {
            EncoderState { lo: e.lo, range: e.range - c, shifts: e.shifts }
        };
        assert(mid.lo + mid.range <= e.lo + e.range);
        lemma_renorm_bounds(mid);
        lemma_renorm_bounds(encoder_renorm(mid));
    } else {
        lemma_pow0(256);
    }
}

proof fn lemma_renorm_bounds(e: EncoderState)
    requires
        16 <= e.range <= MAX_RANGE,
        0 <= e.lo,
        e.lo + e.range <= MAX_RANGE * pow(256, e.shifts),
    ensures
        16 <= encoder_renorm(e).range <= MAX_RANGE,
        0 <= encoder_renorm(e).lo,
        encoder_renorm(e).lo + encoder_renorm(e).range <= MAX_RANGE * pow(256, encoder_renorm(e).shifts),
{
    if e.range <= MIN_RANGE {
        lemma_pow_adds(256, e.shifts, 1);
        lemma_pow1(256);
        assert((e.lo + e.range) * 256 <= MAX_RANGE * pow(256, e.shifts) * 256) by (nonlinear_arith)
            requires e.lo + e.range <= MAX_RANGE * pow(256, e.shifts);
    }
}


proof fn lemma_renorm_scale(e: EncoderState)
    ensures
        encoder_renorm(e).shifts >= e.shifts,
        encoder_renorm(e).lo == e.lo * pow(256, (encoder_renorm(e).shifts - e.shifts) as nat),
        encoder_renorm(e).range == e.range * pow(256, (encoder_renorm(e).shifts - e.shifts) as nat),
{
    if e.range <= MIN_RANGE {
        lemma_pow1(256);
    } else {
        lemma_pow0(256);
    }
}

/// One step of the encoder keeps its new interval inside the old one, both measured at
/// the new scale.
proof fn lemma_step_nested(e: EncoderState, chance: int, bit: bool)
    requires
        1 <= chance < 4096,
        MIN_RANGE < e.range <= MAX_RANGE,
    ensures
        ({
            let e2 = encoder_step(e, chance, bit);
            let p = pow(256, (e2.shifts - e.shifts) as nat);
            &&& e2.shifts >= e.shifts
            &&& e.lo * p <= e2.lo
            &&& e2.lo + e2.range <= (e.lo + e.range) * p
        }),
{
    lemma_scaled_bounds(chance, e.range);
    let c = scaled_chance(chance, e.range);
    let mid = if bit {
        EncoderState { lo: e.lo + e.range - c, range: c, shifts: e.shifts }
    } else {
        EncoderState { lo: e.lo, range: e.range - c, shifts: e.shifts }
    };
    let m1 = encoder_renorm(mid);
    let m2 = encoder_renorm(m1);
    lemma_renorm_scale(mid);
    lemma_renorm_scale(m1);
    let a = (m1.shifts - mid.shifts) as nat;
    let b = (m2.shifts - m1.shifts) as nat;
    lemma_pow_adds(256, a, b);
    lemma_pow_positive(256, a);
    lemma_pow_positive(256, b);
    let pa = pow(256, a);
    let pb = pow(256, b);
    assert(m2.lo == mid.lo * (pa * pb)) by (nonlinear_arith)
        requires m1.lo == mid.lo * pa, m2.lo == m1.lo * pb;
    assert(m2.range == mid.range * (pa * pb)) by (nonlinear_arith)
        requires m1.range == mid.range * pa, m2.range == m1.range * pb;
    let p = pa * pb;
    assert(p > 0) by (nonlinear_arith)
        requires pa > 0, pb > 0, p == pa * pb;
    assert(e.lo * p <= mid.lo * p) by (nonlinear_arith)
        requires e.lo <= mid.lo, p > 0;
    assert((mid.lo + mid.range) * p <= (e.lo + e.range) * p) by (nonlinear_arith)
        requires mid.lo + mid.range <= e.lo + e.range, p > 0;
    assert(m2.lo + m2.range == (mid.lo + mid.range) * p) by (nonlinear_arith)
        requires m2.lo == mid.lo * p, m2.range == mid.range * p;
}

/// The interval after all of `pairs` lies inside the interval after its first `k`
/// pairs, both measured at the final scale.
proof fn lemma_nested(pairs: Seq<(u32, bool)>, k: int)
    requires
        chances_valid(pairs),
        0 <= k <= pairs.len(),
    ensures
        ({
            let ek = encoder_run(pairs.subrange(0, k));
            let en = encoder_run(pairs);
            let p = pow(256, (en.shifts - ek.shifts) as nat);
            &&& en.shifts >= ek.shifts
            &&& ek.lo * p <= en.lo
            &&& en.lo + en.range <= (ek.lo + ek.range) * p
        }),
    decreases pairs.len(),
{
    let ek = encoder_run(pairs.subrange(0, k));
    let en = encoder_run(pairs);
    if k == pairs.len() {
        assert(pairs.subrange(0, k) =~= pairs);
        lemma_pow0(256);
    } else {
        let prev = pairs.drop_last();
        assert forall|i: int| 0 <= i < prev.len() implies 1 <= (#[trigger] prev[i]).0 < 4096 by {
            assert(prev[i] == pairs[i]);
        }
        lemma_nested(prev, k);
        assert(prev.subrange(0, k) =~= pairs.subrange(0, k));
        let e1 = encoder_run(prev);
        lemma_encoder_bounds(prev);
        let chance = pairs.last().0 as int;
        assert(1 <= chance < 4096) by {
            assert(pairs.last() == pairs[pairs.len() - 1]);
        }
        lemma_step_nested(e1, chance, pairs.last().1);
        let a = (e1.shifts - ek.shifts) as nat;
        let b = (en.shifts - e1.shifts) as nat;
        lemma_pow_adds(256, a, b);
        lemma_pow_positive(256, a);
        lemma_pow_positive(256, b);
        let pa = pow(256, a);
        let pb = pow(256, b);
        assert(ek.lo * pa * pb <= e1.lo * pb) by (nonlinear_arith)
            requires ek.lo * pa <= e1.lo, pb > 0;
        assert((e1.lo + e1.range) * pb <= (ek.lo + ek.range) * pa * pb) by (nonlinear_arith)
            requires e1.lo + e1.range <= (ek.lo + ek.range) * pa, pb > 0;
        assert(ek.lo * pa * pb == ek.lo * (pa * pb)) by (nonlinear_arith);
        assert((ek.lo + ek.range) * pa * pb == (ek.lo + ek.range) * (pa * pb)) by (nonlinear_arith);
    }
}


proof fn lemma_pow_succ(k: nat)
    ensures
        pow(256, k + 1) == 256 * pow(256, k),
        pow(256, k) > 0,
{
    lemma_pow_adds(256, 1, k);
    lemma_pow1(256);
    lemma_pow_positive(256, k);
}

proof fn lemma_digits_len(n: nat, k: nat)
    ensures
        digits(n, k).len() == k,
    decreases k,
{
    if k > 0 {
        lemma_digits_len(n / 256, (k - 1) as nat);
    }
}

/// Digit `i` of the `k` digits of `n` is `n / 256^(k - 1 - i)` modulo 256.
proof fn lemma_digit(n: nat, k: nat, i: int)
    requires
        0 <= i < k,
    ensures
        digits(n, k)[i] as int == (n as int / pow(256, (k - 1 - i) as nat)) % 256,
    decreases k,
{
    lemma_digits_len(n / 256, (k - 1) as nat);
    if i == k - 1 {
        lemma_pow0(256);
    } else {
        lemma_digit(n / 256, (k - 1) as nat, i);
        let e = (k - 2 - i) as nat;
        lemma_pow_succ(e);
        lemma_div_denominator(n as int, 256, pow(256, e));
        assert(((k - 1) - 1 - i) as nat == e);
        assert((k - 1 - i) as nat == e + 1);
    }
}

/// What the decoder reads at index `i` of the bytes for the number `n` written as `d + 1`
/// digits: a digit of `n * 2^16 + 0xFFFF`.
proof fn lemma_byte(n: nat, d: nat, i: int)
    requires
        0 <= i <= d + 2,
    ensures
        crate::rac::byte_or_ff(digits(n, d + 1), i) == ((n as int * 0x1_0000 + 0xFFFF) / pow(256, (d + 2 - i) as nat)) % 256,
{
    let v: int = n as int * 0x1_0000 + 0xFFFF;
    let m: int = n as int;
    lemma_digits_len(n, d + 1);
    lemma_pow1(256);
    lemma_pow0(256);
    assert(v == 256 * (256 * m + 255) + 255);
    lemma_div_multiples_vanish_fancy(256 * m + 255, 255, 256);
    lemma_fundamental_div_mod(v, 256);
    if i <= d {
        lemma_digit(n, d + 1, i);
        let e = (d - i) as nat;
        lemma_pow_succ(e);
        lemma_pow_succ(e + 1);
        lemma_div_denominator(v, 0x1_0000, pow(256, e));
        lemma_div_multiples_vanish_fancy(m, 0xFFFF, 0x1_0000);
        assert(v == 0x1_0000 * m + 0xFFFF);
        assert(pow(256, (d + 2 - i) as nat) == 0x1_0000 * pow(256, e));
        assert((d + 1 - 1 - i) as nat == e);
    } else if i == d + 1 {
        assert((d + 2 - i) as nat == 1);
        assert((256 * m + 255) % 256 == 255) by {
            lemma_fundamental_div_mod(256 * m + 255, 256);
            lemma_div_multiples_vanish_fancy(m, 255, 256);
        }
    } else {
        assert((d + 2 - i) as nat == 0);
    }
}

/// The window of `p` digits below the top: shifting one more digit in.
proof fn lemma_window_step(v: int, e: nat)
    requires
        0 <= v,
    ensures
        v / pow(256, e) == 256 * (v / pow(256, e + 1)) + (v / pow(256, e)) % 256,
{
    lemma_pow_succ(e);
    lemma_div_denominator(v, pow(256, e), 256);
    lemma_fundamental_div_mod(v / pow(256, e), 256);
    assert(pow(256, e) * 256 == pow(256, e + 1));
}

/// A number inside `[a * p, (a + r) * p)` has its quotient by `p` inside `[a, a + r)`.
proof fn lemma_quotient_inside(v: int, a: int, r: int, p: int)
    requires
        p > 0,
        a * p <= v < (a + r) * p,
    ensures
        a <= v / p < a + r,
{
    lemma_fundamental_div_mod(v, p);
    let q = v / p;
    assert(0 <= v % p < p);
    assert(a <= q) by (nonlinear_arith)
        requires a * p <= v, v == p * q + v % p, v % p < p, p > 0;
    assert(q < a + r) by (nonlinear_arith)
        requires v < (a + r) * p, v == p * q + v % p, v % p >= 0, p > 0;
}


/// Reads one bit for each chance of `chances`, in order, from decoder state `s`.
pub open spec fn decode_run(s: RacState, data: Seq<u8>, chances: Seq<u32>) -> (Seq<bool>, RacState)
    decreases chances.len(),
{
    if chances.len() == 0 {
        (seq![], s)
    } else {
        let (bits, s1) = decode_run(s, data, chances.drop_last());
        let (b, s2) = decode_step(s1, data, scaled_chance(chances.last() as int, s1.range));
        (bits.push(b), s2)
    }
}

/// The chances of `pairs`.
pub open spec fn chances_of(pairs: Seq<(u32, bool)>) -> Seq<u32> {
    pairs.map_values(|p: (u32, bool)| p.0)
}

/// The bits of `pairs`.
pub open spec fn bits_of(pairs: Seq<(u32, bool)>) -> Seq<bool> {
    pairs.map_values(|p: (u32, bool)| p.1)
}

/// A decoder's state right after it read the first three bytes of `data`.
pub open spec fn decoder_start(data: Seq<u8>) -> RacState {
    RacState { range: MAX_RANGE as int, low: initial_low(data, 0), pos: pos_after(data, pos_after(data, pos_after(data, 0))) }
}

/// The number a decoder of the encoded bytes stands on: the written digits, then ones.
pub open spec fn code_value(pairs: Seq<(u32, bool)>) -> int {
    (encoder_run(pairs).lo / 0x1_0000) * 0x1_0000 + 0xFFFF
}

/// A position that stops at `len`.
pub open spec fn clamp_pos(j: int, len: int) -> int {
    if j < len { j } else { len }
}

proof fn lemma_min_pos(data: Seq<u8>, j: int)
    requires
        0 <= j,
    ensures
        byte_or_ff(data, clamp_pos(j, data.len() as int)) == byte_or_ff(data, j),
        pos_after(data, clamp_pos(j, data.len() as int)) == clamp_pos(j + 1, data.len() as int),
{
}

/// The code value lies in the final interval, and below `256^(shifts + 3)`.
proof fn lemma_code_value(pairs: Seq<(u32, bool)>)
    requires
        chances_valid(pairs),
    ensures
        encoder_run(pairs).lo <= code_value(pairs) < encoder_run(pairs).lo + encoder_run(pairs).range,
        code_value(pairs) / pow(256, encoder_run(pairs).shifts + 2) < 256,
        code_value(pairs) >= 0,
{
    lemma_encoder_bounds(pairs);
    let e = encoder_run(pairs);
    let n = e.lo / 0x1_0000;
    lemma_fundamental_div_mod(e.lo, 0x1_0000);
    let ps = pow(256, e.shifts);
    lemma_pow_positive(256, e.shifts);
    lemma_pow_succ(e.shifts);
    lemma_pow_succ(e.shifts + 1);
    let v = code_value(pairs);
    assert(n < 256 * ps) by (nonlinear_arith)
        requires e.lo == 0x1_0000 * n + e.lo % 0x1_0000, e.lo % 0x1_0000 >= 0, e.lo < 0x100_0000 * ps, ps > 0;
    assert(v < 256 * pow(256, e.shifts + 2)) by (nonlinear_arith)
        requires v == n * 0x1_0000 + 0xFFFF, n < 256 * ps, pow(256, e.shifts + 2) == 256 * (256 * ps), n >= 0;
    lemma_fundamental_div_mod(v, pow(256, e.shifts + 2));
    assert(v / pow(256, e.shifts + 2) < 256) by (nonlinear_arith)
        requires v < 256 * pow(256, e.shifts + 2), pow(256, e.shifts + 2) > 0,
            v == pow(256, e.shifts + 2) * (v / pow(256, e.shifts + 2)) + v % pow(256, e.shifts + 2),
            v % pow(256, e.shifts + 2) >= 0;
}

/// Renormalising a decoder that matches an encoder keeps them matched.
proof fn lemma_renorm_match(pairs: Seq<(u32, bool)>, e: EncoderState, pos: int)
    requires
        chances_valid(pairs),
        e.range <= MIN_RANGE ==> e.shifts + 1 <= encoder_run(pairs).shifts,
        e.shifts <= encoder_run(pairs).shifts,
        pos == clamp_pos(e.shifts as int + 3, encoded_bytes(pairs).len() as int),
    ensures
        ({
            let d = encoder_run(pairs).shifts;
            let v = code_value(pairs);
            let f = encoded_bytes(pairs);
            let e2 = encoder_renorm(e);
            renorm_step(RacState { range: e.range, low: v / pow(256, (d - e.shifts) as nat) - e.lo, pos }, f)
                == (RacState { range: e2.range, low: v / pow(256, (d - e2.shifts) as nat) - e2.lo,
                    pos: clamp_pos(e2.shifts as int + 3, f.len() as int) })
        }),
{
    let d = encoder_run(pairs).shifts;
    let v = code_value(pairs);
    let f = encoded_bytes(pairs);
    lemma_digits_len((encoder_run(pairs).lo / 0x1_0000) as nat, d + 1);
    lemma_code_value(pairs);
    if e.range <= MIN_RANGE {
        let j: int = e.shifts as int + 3;
        lemma_min_pos(f, j);
        lemma_byte((encoder_run(pairs).lo / 0x1_0000) as nat, d, j);
        assert((encoder_run(pairs).lo / 0x1_0000) as nat as int * 0x1_0000 + 0xFFFF == v);
        let x = (d - e.shifts - 1) as nat;
        assert((d + 2 - j) as nat == x);
        lemma_window_step(v, x);
        assert((d - e.shifts) as nat == x + 1);
        assert((d - (e.shifts + 1)) as nat == x);
    }
}

/// After the first `k` pairs, the decoder of the encoded bytes holds the encoder's range,
/// the distance from the encoder's low end to the code value's window, and the position
/// after the bytes both have shifted; and it has read the bits back.
proof fn lemma_prefix(pairs: Seq<(u32, bool)>, k: int)
    requires
        chances_valid(pairs),
        0 <= k <= pairs.len(),
    ensures
        ({
            let f = encoded_bytes(pairs);
            let d = encoder_run(pairs).shifts;
            let ek = encoder_run(pairs.subrange(0, k));
            let (bits, st) = decode_run(decoder_start(f), f, chances_of(pairs.subrange(0, k)));
            &&& bits == bits_of(pairs.subrange(0, k))
            &&& st.range == ek.range
            &&& ek.shifts <= d
            &&& st.low == code_value(pairs) / pow(256, (d - ek.shifts) as nat) - ek.lo
            &&& st.pos == clamp_pos(ek.shifts as int + 3, f.len() as int)
        }),
    decreases k,
{
    let f = encoded_bytes(pairs);
    let e = encoder_run(pairs);
    let d = e.shifts;
    let v = code_value(pairs);
    let n = (e.lo / 0x1_0000) as nat;
    lemma_encoder_bounds(pairs);
    lemma_code_value(pairs);
    lemma_digits_len(n, d + 1);
    assert(n as int * 0x1_0000 + 0xFFFF == v);
    lemma_nested(pairs, k);
    if k == 0 {
        let ek = encoder_run(pairs.subrange(0, 0));
        assert(pairs.subrange(0, 0).len() == 0);
        assert(chances_of(pairs.subrange(0, 0)).len() == 0);
        assert(bits_of(pairs.subrange(0, 0)) =~= Seq::<bool>::empty());
        lemma_byte(n, d, 0);
        lemma_byte(n, d, 1);
        lemma_byte(n, d, 2);
        lemma_window_step(v, d);
        lemma_window_step(v, d + 1);
        assert((d + 2 - 0) as nat == d + 2);
        assert((d + 2 - 1) as nat == d + 1);
        assert((d + 2 - 2) as nat == d);
        assert((d - 0) as nat == d);
        assert((v / pow(256, d + 2)) % 256 == v / pow(256, d + 2));
        lemma_min_pos(f, 1);
        lemma_min_pos(f, 2);
        lemma_min_pos(f, 0);
    } else {
        lemma_prefix(pairs, k - 1);
        let prefix = pairs.subrange(0, k);
        let before = pairs.subrange(0, k - 1);
        assert(prefix.drop_last() =~= before);
        assert(chances_of(prefix).drop_last() =~= chances_of(before));
        assert(chances_of(prefix).last() == pairs[k - 1].0);
        assert(bits_of(prefix) =~= bits_of(before).push(pairs[k - 1].1));
        assert(prefix.last() == pairs[k - 1]);
        let e0 = encoder_run(before);
        let e1 = encoder_run(prefix);
        let chance = pairs[k - 1].0 as int;
        let bit = pairs[k - 1].1;
        assert(1 <= chance < 4096);
        assert forall|i: int| 0 <= i < before.len() implies 1 <= (#[trigger] before[i]).0 < 4096 by {
            assert(before[i] == pairs[i]);
        }
        lemma_encoder_bounds(before);
        lemma_scaled_bounds(chance, e0.range);
        let (lo2, r2) = encode_interval(e0.lo, e0.range, chance, bit);
        let mid = EncoderState { lo: lo2, range: r2, shifts: e0.shifts };
        let m1 = encoder_renorm(mid);
        assert(e1 == encoder_renorm(m1));
        lemma_renorm_scale(mid);
        lemma_renorm_scale(m1);
        // the code value's window at the scale before the step lies in the kept interval
        let a = (m1.shifts - mid.shifts) as nat;
        let b = (e1.shifts - m1.shifts) as nat;
        let c = (d - e1.shifts) as nat;
        lemma_pow_adds(256, a, b);
        lemma_pow_adds(256, a + b, c);
        lemma_pow_positive(256, a);
        lemma_pow_positive(256, b);
        lemma_pow_positive(256, c);
        let pab = pow(256, a + b);
        let pc = pow(256, c);
        let p = pow(256, (d - e0.shifts) as nat);
        assert((d - e0.shifts) as nat == a + b + c);
        assert(e1.lo == lo2 * pab) by (nonlinear_arith)
            requires m1.lo == lo2 * pow(256, a), e1.lo == m1.lo * pow(256, b), pab == pow(256, a) * pow(256, b);
        assert(e1.range == r2 * pab) by (nonlinear_arith)
            requires m1.range == r2 * pow(256, a), e1.range == m1.range * pow(256, b), pab == pow(256, a) * pow(256, b);
        assert(p == pab * pc);
        assert(lo2 * p <= e.lo) by (nonlinear_arith)
            requires e1.lo * pc <= e.lo, e1.lo == lo2 * pab, p == pab * pc;
        assert(e.lo + e.range <= (lo2 + r2) * p) by (nonlinear_arith)
            requires e.lo + e.range <= (e1.lo + e1.range) * pc, e1.lo == lo2 * pab, e1.range == r2 * pab, p == pab * pc;
        lemma_pow_positive(256, (d - e0.shifts) as nat);
        lemma_quotient_inside(v, lo2, r2, p);
        let w = v / p;
        let pos = clamp_pos(e0.shifts as int + 3, f.len() as int);
        bit_round_trip(e0.lo, e0.range, chance, bit, w, pos, f);
        lemma_renorm_match(pairs, mid, pos);
        lemma_renorm_match(pairs, m1, clamp_pos(m1.shifts as int + 3, f.len() as int));
    }
}

/// Bytes written by a mirror encoder for any sequence of `(chance, bit)` pairs, with
/// chances in `[1, 4095]`, read back with the same chances give the same bits.
pub proof fn rac_round_trip(pairs: Seq<(u32, bool)>)
    requires
        chances_valid(pairs),
    ensures
        decode_run(decoder_start(encoded_bytes(pairs)), encoded_bytes(pairs), chances_of(pairs)).0 == bits_of(pairs),
{
    lemma_prefix(pairs, pairs.len() as int);
    assert(pairs.subrange(0, pairs.len() as int) =~= pairs);
}


/// The number a byte string spells, most significant byte first.
pub open spec fn number(s: Seq<u8>) -> int
    decreases s.len(),
{
    if s.len() == 0 {
        0
    } else {
        number(s.drop_last()) * 256 + s.last()
    }
}

pub(crate) proof fn lemma_number_push(s: Seq<u8>, b: u8)
    ensures
        number(s.push(b)) == number(s) * 256 + b,
{
    assert(s.push(b).drop_last() =~= s);
}

pub(crate) proof fn lemma_number_bounds(s: Seq<u8>)
    ensures
        0 <= number(s) < pow(256, s.len()),
    decreases s.len(),
{
    if s.len() == 0 {
        lemma_pow0(256);
    } else {
        lemma_number_bounds(s.drop_last());
        lemma_pow_succ((s.len() - 1) as nat);
        assert(number(s) < pow(256, s.len())) by (nonlinear_arith)
            requires number(s) == number(s.drop_last()) * 256 + s.last(), number(s.drop_last()) < pow(256, (s.len() - 1) as nat),
                pow(256, s.len()) == 256 * pow(256, (s.len() - 1) as nat), s.last() < 256, number(s.drop_last()) >= 0;
    }
}

/// A byte string is the digits of the number it spells.
pub(crate) proof fn lemma_digits_number(s: Seq<u8>)
    ensures
        digits(number(s) as nat, s.len()) == s,
    decreases s.len(),
{
    if s.len() > 0 {
        let t = s.drop_last();
        lemma_digits_number(t);
        lemma_number_bounds(t);
        let n = number(s);
        assert(n / 256 == number(t)) by {
            lemma_div_multiples_vanish_fancy(number(t), s.last() as int, 256);
        }
        assert(n % 256 == s.last()) by {
            lemma_fundamental_div_mod(n, 256);
            lemma_div_multiples_vanish_fancy(number(t), s.last() as int, 256);
        }
        assert(digits(n as nat, s.len()) =~= s);
    }
}

/// Adding one to the number spelled by `s`, when it does not overflow, sets the trailing
/// `0xFF` bytes to zero and adds one to the byte before them.
pub(crate) proof fn lemma_number_increment(s: Seq<u8>, i: int)
    requires
        0 <= i < s.len(),
        s[i] != 0xFF,
        forall|j: int| i < j < s.len() ==> #[trigger] s[j] == 0xFF,
    ensures
        number(s) + 1 == number(s.subrange(0, i).push((s[i] + 1) as u8) + Seq::new((s.len() - i - 1) as nat, |j: int| 0u8)),
    decreases s.len(),
{
    let t = s.drop_last();
    let zeros = Seq::new((s.len() - i - 1) as nat, |j: int| 0u8);
    let r = s.subrange(0, i).push((s[i] + 1) as u8) + zeros;
    if i == s.len() - 1 {
        assert(zeros.len() == 0);
        assert(r =~= t.push((s[i] + 1) as u8));
        lemma_number_push(t, (s[i] + 1) as u8);
        assert(s =~= t.push(s[i]));
        lemma_number_push(t, s[i]);
    } else {
        assert forall|j: int| i < j < t.len() implies #[trigger] t[j] == 0xFF by {
            assert(t[j] == s[j]);
        }
        lemma_number_increment(t, i);
        let zeros2 = Seq::new((t.len() - i - 1) as nat, |j: int| 0u8);
        let r2 = t.subrange(0, i).push((t[i] + 1) as u8) + zeros2;
        assert(t.subrange(0, i) =~= s.subrange(0, i));
        assert(r =~= r2.push(0u8));
        lemma_number_push(r2, 0u8);
        assert(s =~= t.push(0xFFu8));
        lemma_number_push(t, 0xFFu8);
    }
}


pub(crate) proof fn lemma_number_all_ff(s: Seq<u8>)
    requires
        forall|j: int| 0 <= j < s.len() ==> #[trigger] s[j] == 0xFF,
    ensures
        number(s) == pow(256, s.len()) - 1,
    decreases s.len(),
{
    if s.len() == 0 {
        lemma_pow0(256);
    } else {
        let t = s.drop_last();
        assert forall|j: int| 0 <= j < t.len() implies #[trigger] t[j] == 0xFF by {
            assert(t[j] == s[j]);
        }
        lemma_number_all_ff(t);
        lemma_pow_succ(t.len());
        assert(s.last() == s[s.len() - 1]);
    }
}

/// The bytes an encoder holds, with its low register, stand for the encoder state whose
/// low end is their number followed by the register.
pub open spec fn writer_value(out: Seq<u8>, low: int, range: int) -> EncoderState {
    EncoderState { lo: number(out) * 0x100_0000 + low, range, shifts: out.len() }
}

/// An encoder whose bytes and register stand for the state after `pairs` writes, on
/// flushing, exactly the bytes of the mirror encoding of `pairs`.
pub proof fn flushed_bytes_are_encoding(pairs: Seq<(u32, bool)>, out: Seq<u8>, low: int, range: int)
    requires
        writer_value(out, low, range) == encoder_run(pairs),
        0 <= low < 0x100_0000,
    ensures
        out.push((low / 0x1_0000) as u8) == encoded_bytes(pairs),
{
    let e = encoder_run(pairs);
    let full = out.push((low / 0x1_0000) as u8);
    lemma_number_push(out, (low / 0x1_0000) as u8);
    lemma_number_bounds(out);
    lemma_fundamental_div_mod(low, 0x1_0000);
    assert(e.lo / 0x1_0000 == number(out) * 256 + low / 0x1_0000) by {
        lemma_div_multiples_vanish_fancy(number(out) * 256 + low / 0x1_0000, low % 0x1_0000, 0x1_0000);
    }
    lemma_digits_number(full);
}


/// An encoder whose written bytes and low register stand for the state after `pairs`
/// (as `Rac::write_chance` keeps them, from `Rac::from_writer` on) writes, on flushing,
/// bytes from which a decoder reads the bits of `pairs` back with the same chances.
pub proof fn writer_round_trip(pairs: Seq<(u32, bool)>, out: Seq<u8>, low: int, range: int)
    requires
        chances_valid(pairs),
        writer_value(out, low, range) == encoder_run(pairs),
        0 <= low < 0x100_0000,
    ensures
        ({
            let bytes = out.push((low / 0x1_0000) as u8);
            decode_run(decoder_start(bytes), bytes, chances_of(pairs)).0 == bits_of(pairs)
        }),
{
    flushed_bytes_are_encoding(pairs, out, low, range);
    rac_round_trip(pairs);
}

} // verus!
