//! Smooth minimum and maximum over a set of scalars.
//!
//! `rvmin` / `rvmax` keep the literal minimum / maximum whenever no other
//! value is close to it, and otherwise blend the nearby values with a
//! log-sum-exp of smoothing scale `r / 4`, restricted to the values within
//! `r` of the extremum for numerical stability.
//!
//! The transcendental part is carried out in fixed point: the exponential
//! as a repeatedly squared `(1 - t / 2^16)` and the logarithm through
//! sixteen integer square roots, both on a `2^30` sub-grid.  The sum of
//! exponentials is taken relative to the extremum (`exp(-(x - m) / s)`
//! instead of `exp(-x / s)`, an exact rearrangement over the reals), so
//! every exponent lies in `[0, 4]` where the fixed-point exponential is
//! well conditioned.  The exact integer value of every step is pinned by
//! the spec functions below, and the blended result is clamped into
//! `[extremum - r, extremum]`, the range the real log-sum-exp can reach.

use vstd::prelude::*;

use crate::scalar::SCALE;
use crate::scalar::clip;
use crate::scalar::isqrt;
use crate::scalar::lemma_i64_mul_fits;
use crate::scalar::spec_isqrt;
use crate::scalar::wide_floor_div;

verus! {

/// One unit on the internal binary grid of the exponential and logarithm.
pub const EXP_ONE: i64 = 1_073_741_824;

/// Number of squaring / square-root steps.
pub const EXP_STEPS: u64 = 16;

/// `2 ^ EXP_STEPS`.
pub const EXP_SHIFT: i64 = 65_536;

/// Largest number of values one blend call accepts.
pub const MAX_TERMS: usize = 1_000_000;

/// `k` repeated fixed-point squarings of `a` on the `EXP_ONE` grid.
pub open spec fn spec_sq_iter(a: int, k: nat) -> int
    decreases k,
{
    if k == 0 {
        a
    } else {
        spec_sq_iter((a * a) / (EXP_ONE as int), (k - 1) as nat)
    }
}

/// `exp(-t)` for a fixed-point `t` (in `SCALE` units, clamped to `[0, 4]`),
/// as `(1 - t / 2^16) ^ (2^16)` evaluated on the `EXP_ONE` grid; the result
/// is in `SCALE` units.
pub open spec fn spec_exp_neg(t: int) -> int {
    let t2 = (t * EXP_ONE) / (SCALE as int);
    let a0 = EXP_ONE - t2 / (EXP_SHIFT as int);
    (spec_sq_iter(a0, EXP_STEPS as nat) * SCALE) / (EXP_ONE as int)
}

/// Squaring keeps the `[0, EXP_ONE]` range.
proof fn lemma_sq_iter_range(a: int, k: nat)
    requires
        0 <= a <= EXP_ONE,
    ensures
        0 <= spec_sq_iter(a, k) <= EXP_ONE,
    decreases k,
{
    if k > 0 {
        let e = EXP_ONE as int;
        let s = (a * a) / e;
        assert(0 <= a * a <= a * e) by (nonlinear_arith)
            requires 0 <= a <= e;
        assert(s >= 0) by {
            vstd::arithmetic::div_mod::lemma_div_pos_is_pos(a * a, e);
        }
        assert(s <= a) by {
            vstd::arithmetic::div_mod::lemma_div_is_ordered(a * a, a * e, e);
            vstd::arithmetic::div_mod::lemma_div_multiples_vanish(a, e);
            assert(a * e == e * a) by (nonlinear_arith);
        }
        lemma_sq_iter_range(s, (k - 1) as nat);
    }
}

/// The grid value 1.0 is a fixed point of squaring.
proof fn lemma_sq_iter_one(k: nat)
    ensures
        spec_sq_iter(EXP_ONE as int, k) == EXP_ONE as int,
    decreases k,
{
    if k > 0 {
        let e = EXP_ONE as int;
        assert((e * e) / e == e) by {
            vstd::arithmetic::div_mod::lemma_div_multiples_vanish(e, e);
            assert(e * e == e * e) by (nonlinear_arith);
        }
        lemma_sq_iter_one((k - 1) as nat);
    }
}

/// Fixed-point `exp(-t)`; see [`spec_exp_neg`].
pub fn exp_neg(t: i64) -> (r: i64)
    requires
        0 <= t <= 4 * SCALE,
    ensures
        r as int == spec_exp_neg(t as int),
        0 <= r <= SCALE,
        t == 0 ==> r == SCALE,
{
    proof {
        lemma_i64_mul_fits(t as int, EXP_ONE as int);
    }
    let t2: i128 = wide_floor_div((t as i128) * (EXP_ONE as i128), SCALE as i128);
    proof {
        assert(t2 >= 0) by {
            vstd::arithmetic::div_mod::lemma_div_pos_is_pos(
                (t as int) * (EXP_ONE as int), SCALE as int);
        }
        assert(t2 <= 4 * (EXP_ONE as int)) by {
            assert((t as int) * (EXP_ONE as int) <= (4 * SCALE as int) * (EXP_ONE as int))
                by (nonlinear_arith)
                requires 0 <= t as int <= 4 * (SCALE as int);
            vstd::arithmetic::div_mod::lemma_div_is_ordered(
                (t as int) * (EXP_ONE as int),
                (4 * SCALE as int) * (EXP_ONE as int),
                SCALE as int);
            assert((4 * (SCALE as int) * (EXP_ONE as int)) / (SCALE as int)
                == 4 * (EXP_ONE as int)) by {
                vstd::arithmetic::div_mod::lemma_div_multiples_vanish(
                    4 * EXP_ONE as int, SCALE as int);
                assert(4 * (SCALE as int) * (EXP_ONE as int)
                    == (SCALE as int) * (4 * (EXP_ONE as int))) by (nonlinear_arith);
            }
        }
    }
    let step: i128 = wide_floor_div(t2, EXP_SHIFT as i128);
    proof {
        assert(step >= 0) by {
            vstd::arithmetic::div_mod::lemma_div_pos_is_pos(t2 as int, EXP_SHIFT as int);
        }
        assert(step <= EXP_ONE as int) by {
            vstd::arithmetic::div_mod::lemma_div_is_ordered(
                t2 as int, 4 * EXP_ONE as int, EXP_SHIFT as int);
            assert((4 * (EXP_ONE as int)) / (EXP_SHIFT as int) == EXP_SHIFT as int);
        }
    }
    let mut a: i64 = EXP_ONE - (step as i64);
    let a0: Ghost<int> = Ghost(a as int);
    let mut i: u64 = 0;
    while i < EXP_STEPS
        invariant
            0 <= i <= EXP_STEPS,
            0 <= a <= EXP_ONE,
            0 <= a0@ <= EXP_ONE,
            spec_sq_iter(a as int, (EXP_STEPS - i) as nat)
                == spec_sq_iter(a0@, EXP_STEPS as nat),
        decreases EXP_STEPS - i,
    {
        proof {
            let e = EXP_ONE as int;
            assert(0 <= (a as int) * (a as int) <= (a as int) * e) by (nonlinear_arith)
                requires 0 <= a as int <= e;
            assert(((a as int) * (a as int)) / e <= a as int) by {
                vstd::arithmetic::div_mod::lemma_div_is_ordered(
                    (a as int) * (a as int), (a as int) * e, e);
                vstd::arithmetic::div_mod::lemma_div_multiples_vanish(a as int, e);
                assert((a as int) * e == e * (a as int)) by (nonlinear_arith);
            }
            assert(((a as int) * (a as int)) / e >= 0) by {
                vstd::arithmetic::div_mod::lemma_div_pos_is_pos((a as int) * (a as int), e);
            }
        }
        let sq: u64 = ((a as u64) * (a as u64)) / (EXP_ONE as u64);
        a = sq as i64;
        i = i + 1;
    }
    proof {
        lemma_sq_iter_range(a0@, EXP_STEPS as nat);
        let e = EXP_ONE as int;
        let v = a as int;
        assert(0 <= v * (SCALE as int) <= e * (SCALE as int)) by (nonlinear_arith)
            requires 0 <= v <= e;
        assert((v * (SCALE as int)) / e <= SCALE as int) by {
            vstd::arithmetic::div_mod::lemma_div_is_ordered(
                v * (SCALE as int), e * (SCALE as int), e);
            vstd::arithmetic::div_mod::lemma_div_multiples_vanish(SCALE as int, e);
            assert(e * (SCALE as int) == (SCALE as int) * e) by (nonlinear_arith);
            assert(v * (SCALE as int) == (SCALE as int) * v) by (nonlinear_arith);
        }
        assert((v * (SCALE as int)) / e >= 0) by {
            vstd::arithmetic::div_mod::lemma_div_pos_is_pos(v * (SCALE as int), e);
        }
        if t == 0 {
            lemma_sq_iter_one(EXP_STEPS as nat);
            assert((e * (SCALE as int)) / e == SCALE as int) by {
                vstd::arithmetic::div_mod::lemma_div_multiples_vanish(SCALE as int, e);
                assert(e * (SCALE as int) == (SCALE as int) * e) by (nonlinear_arith);
            }
        }
    }
    let r: i128 = wide_floor_div((a as i128) * (SCALE as i128), EXP_ONE as i128);
    r as i64
}

/// One logarithm step: the integer square root on the `EXP_ONE` grid.
pub open spec fn spec_sqrt_step(y: int) -> int {
    spec_isqrt(y * EXP_ONE)
}

/// `k` repeated square roots on the `EXP_ONE` grid.
pub open spec fn spec_ln_iter(y: int, k: nat) -> int
    decreases k,
{
    if k == 0 {
        y
    } else {
        spec_ln_iter(spec_sqrt_step(y), (k - 1) as nat)
    }
}

/// `ln(s)` for a fixed-point `s >= 1` (in `SCALE` units), as
/// `2^16 * (s ^ (1 / 2^16) - 1)` evaluated on the `EXP_ONE` grid; the
/// result is in `SCALE` units.
pub open spec fn spec_ln(s: int) -> int {
    let s2 = (s * EXP_ONE) / (SCALE as int);
    let y = spec_ln_iter(s2, EXP_STEPS as nat);
    clip(((y - EXP_ONE) * EXP_SHIFT * SCALE) / (EXP_ONE as int))
}

/// The square-root step keeps the range `[EXP_ONE, bound]`.
proof fn lemma_sqrt_step_range(y: int, bound: int)
    requires
        EXP_ONE as int <= y <= bound,
    ensures
        EXP_ONE as int <= spec_sqrt_step(y) <= y,
        spec_sqrt_step(y) <= bound,
{
    let e = EXP_ONE as int;
    let x = y * e;
    assert(y * e >= e * e >= 0) by (nonlinear_arith)
        requires y >= e, e > 0;
    crate::scalar::lemma_isqrt_bounds(x);
    let n = spec_isqrt(x);
    assert(n >= e) by {
        if n < e {
            assert((n + 1) * (n + 1) <= e * e) by (nonlinear_arith)
                requires 0 <= n, n + 1 <= e;
        }
    }
    assert(n <= y) by {
        if n > y {
            assert(y * e <= y * y) by (nonlinear_arith)
                requires e <= y, e > 0;
            assert(y * y < (y + 1) * (y + 1)) by (nonlinear_arith)
                requires y >= 0;
            assert((y + 1) * (y + 1) <= n * n) by (nonlinear_arith)
                requires 0 <= y, y + 1 <= n;
        }
    }
}

/// Repeated square roots keep the range `[EXP_ONE, bound]`.
proof fn lemma_ln_iter_range(y: int, k: nat, bound: int)
    requires
        EXP_ONE as int <= y <= bound,
    ensures
        EXP_ONE as int <= spec_ln_iter(y, k) <= bound,
    decreases k,
{
    if k > 0 {
        lemma_sqrt_step_range(y, bound);
        lemma_ln_iter_range(spec_sqrt_step(y), (k - 1) as nat, bound);
    }
}

/// Fixed-point `ln(s)`; see [`spec_ln`].
pub fn ln_fixed(s: i64) -> (r: i64)
    requires
        SCALE <= s,
        s as int <= (MAX_TERMS as int) * (SCALE as int),
    ensures
        r as int == spec_ln(s as int),
        r >= 0,
{
    proof {
        lemma_i64_mul_fits(s as int, EXP_ONE as int);
    }
    let s2w: i128 = wide_floor_div((s as i128) * (EXP_ONE as i128), SCALE as i128);
    proof {
        let e = EXP_ONE as int;
        let sc = SCALE as int;
        assert((s as int) * e >= sc * e) by (nonlinear_arith)
            requires s as int >= sc, e >= 0;
        assert(s2w as int >= e) by {
            vstd::arithmetic::div_mod::lemma_div_is_ordered(sc * e, (s as int) * e, sc);
            vstd::arithmetic::div_mod::lemma_div_multiples_vanish(e, sc);
        }
        let top = (MAX_TERMS as int) * sc;
        assert((s as int) * e <= top * e) by (nonlinear_arith)
            requires s as int <= top, e >= 0;
        assert(s2w as int <= (MAX_TERMS as int) * e) by {
            vstd::arithmetic::div_mod::lemma_div_is_ordered((s as int) * e, top * e, sc);
            assert(((MAX_TERMS as int) * sc) * e == sc * ((MAX_TERMS as int) * e))
                by (nonlinear_arith);
            vstd::arithmetic::div_mod::lemma_div_multiples_vanish((MAX_TERMS as int) * e, sc);
        }
    }
    let s2: u64 = s2w as u64;
    let mut y: u64 = s2;
    let mut i: u64 = 0;
    while i < EXP_STEPS
        invariant
            0 <= i <= EXP_STEPS,
            EXP_ONE as int <= y as int <= s2 as int,
            s2 as int <= (MAX_TERMS as int) * (EXP_ONE as int),
            spec_ln_iter(y as int, (EXP_STEPS - i) as nat)
                == spec_ln_iter(s2 as int, EXP_STEPS as nat),
        decreases EXP_STEPS - i,
    {
        proof {
            lemma_sqrt_step_range(y as int, s2 as int);
            assert((y as int) * (EXP_ONE as int)
                < 0x4000_0000_0000_0000_0000_0000_0000_0000) by (nonlinear_arith)
                requires
                    0 <= y as int,
                    (y as int) < 0x1_0000_0000_0000_0000;
        }
        let n: u128 = isqrt((y as u128) * (EXP_ONE as u128));
        y = n as u64;
        i = i + 1;
    }
    proof {
        lemma_ln_iter_range(s2 as int, EXP_STEPS as nat, s2 as int);
        let d = (y as int) - (EXP_ONE as int);
        assert(0 <= d * (EXP_SHIFT as int) * (SCALE as int)
            <= 0x4000_0000_0000_0000_0000_0000_0000_0000) by (nonlinear_arith)
            requires
                0 <= d,
                d < 0x1_0000_0000_0000_0000;
        assert(((d * (EXP_SHIFT as int)) * (SCALE as int)) / (EXP_ONE as int) >= 0) by {
            vstd::arithmetic::div_mod::lemma_div_pos_is_pos(
                d * (EXP_SHIFT as int) * (SCALE as int), EXP_ONE as int);
        }
    }
    let wide: i128 = ((y as i128) - (EXP_ONE as i128)) * (EXP_SHIFT as i128)
        * (SCALE as i128);
    let q: i128 = wide_floor_div(wide, EXP_ONE as i128);
    if q > i64::MAX as i128 {
        i64::MAX
    } else {
        q as i64
    }
}

/// The running state of the single-pass minimum fold, left to right: the
/// literal minimum so far, and whether some other value has come within
/// `er` of it.  On a new minimum the flag is recomputed from the old one
/// alone; otherwise it accumulates.  This heuristic is part of the
/// function's behaviour and is mirrored exactly.
pub open spec fn spec_min_state(s: Seq<i64>, er: int) -> (int, bool)
    decreases s.len(),
{
    if s.len() == 0 {
        (i64::MAX as int, false)
    } else {
        let prev = spec_min_state(s.drop_last(), er);
        let x = s.last() as int;
        if x < prev.0 {
            (x, prev.0 - x < er)
        } else {
            (prev.0, prev.1 || x - prev.0 < er)
        }
    }
}

/// The dual running state for the maximum fold.
pub open spec fn spec_max_state(s: Seq<i64>, er: int) -> (int, bool)
    decreases s.len(),
{
    if s.len() == 0 {
        (i64::MIN as int, false)
    } else {
        let prev = spec_max_state(s.drop_last(), er);
        let x = s.last() as int;
        if x > prev.0 {
            (x, x - prev.0 < er)
        } else {
            (prev.0, prev.1 || prev.0 - x < er)
        }
    }
}

/// The fold's minimum is a lower bound of every value.
pub proof fn lemma_min_state_le(s: Seq<i64>, er: int, i: int)
    requires
        0 <= i < s.len(),
    ensures
        spec_min_state(s, er).0 <= s[i],
    decreases s.len(),
{
    if i < s.len() - 1 {
        lemma_min_state_le(s.drop_last(), er, i);
    }
}

/// The fold's maximum is an upper bound of every value.
pub proof fn lemma_max_state_ge(s: Seq<i64>, er: int, i: int)
    requires
        0 <= i < s.len(),
    ensures
        spec_max_state(s, er).0 >= s[i],
    decreases s.len(),
{
    if i < s.len() - 1 {
        lemma_max_state_ge(s.drop_last(), er, i);
    }
}

/// On a non-empty sequence the fold's minimum is one of the values.
pub proof fn lemma_min_state_exists(s: Seq<i64>, er: int)
    requires
        s.len() > 0,
    ensures
        exists|i: int| 0 <= i < s.len() && s[i] as int == spec_min_state(s, er).0,
    decreases s.len(),
{
    let prev = spec_min_state(s.drop_last(), er);
    let x = s.last() as int;
    if x < prev.0 {
        assert(s[s.len() - 1] as int == spec_min_state(s, er).0);
    } else if s.len() == 1 {
        assert(s[0] as int == spec_min_state(s, er).0);
    } else {
        lemma_min_state_exists(s.drop_last(), er);
        let k = choose|k: int| 0 <= k < s.drop_last().len()
            && s.drop_last()[k] as int == prev.0;
        assert(s[k] as int == spec_min_state(s, er).0);
    }
}

/// On a non-empty sequence the fold's maximum is one of the values.
pub proof fn lemma_max_state_exists(s: Seq<i64>, er: int)
    requires
        s.len() > 0,
    ensures
        exists|i: int| 0 <= i < s.len() && s[i] as int == spec_max_state(s, er).0,
    decreases s.len(),
{
    let prev = spec_max_state(s.drop_last(), er);
    let x = s.last() as int;
    if x > prev.0 {
        assert(s[s.len() - 1] as int == spec_max_state(s, er).0);
    } else if s.len() == 1 {
        assert(s[0] as int == spec_max_state(s, er).0);
    } else {
        lemma_max_state_exists(s.drop_last(), er);
        let k = choose|k: int| 0 <= k < s.drop_last().len()
            && s.drop_last()[k] as int == prev.0;
        assert(s[k] as int == spec_max_state(s, er).0);
    }
}

/// Clamp a blend exponent into the domain of [`spec_exp_neg`].
pub open spec fn spec_clamp_t(t: int) -> int {
    if t < 0 {
        0
    } else if t > 4 * (SCALE as int) {
        4 * (SCALE as int)
    } else {
        t
    }
}

/// One summand of the smooth-minimum blend: values within `r` above the
/// minimum contribute `exp(-(x - m) / r4)`, the rest nothing.
pub open spec fn spec_exp_term_min(x: int, m: int, r: int, r4: int) -> int {
    if x < clip(m + r) {
        spec_exp_neg(spec_clamp_t(((x - m) * (SCALE as int)) / r4))
    } else {
        0
    }
}

/// One summand of the smooth-maximum blend: values within `r` below the
/// maximum contribute `exp(-(m - x) / r4)`, the rest nothing.
pub open spec fn spec_exp_term_max(x: int, m: int, r: int, r4: int) -> int {
    if x > clip(m - r) {
        spec_exp_neg(spec_clamp_t(((m - x) * (SCALE as int)) / r4))
    } else {
        0
    }
}

/// The blend sum of the smooth minimum.
pub open spec fn spec_exp_sum_min(s: Seq<i64>, m: int, r: int, r4: int) -> int
    decreases s.len(),
{
    if s.len() == 0 {
        0
    } else {
        spec_exp_sum_min(s.drop_last(), m, r, r4)
            + spec_exp_term_min(s.last() as int, m, r, r4)
    }
}

/// The blend sum of the smooth maximum.
pub open spec fn spec_exp_sum_max(s: Seq<i64>, m: int, r: int, r4: int) -> int
    decreases s.len(),
{
    if s.len() == 0 {
        0
    } else {
        spec_exp_sum_max(s.drop_last(), m, r, r4)
            + spec_exp_term_max(s.last() as int, m, r, r4)
    }
}

/// The smooth minimum of `s` with rounding radius `r`: the literal minimum
/// when no other value is within `er` of it (or when `r` is too small to
/// smooth at all), otherwise `m - (r/4) * ln(sum)` clamped into
/// `[m - r, m]`.
pub open spec fn spec_rvmin(s: Seq<i64>, r: i64, er: i64) -> int {
    let st = spec_min_state(s, er as int);
    let m = st.0;
    let r4 = (r as int) / 4;
    if !st.1 || r4 == 0 {
        m
    } else {
        let sum = spec_exp_sum_min(s, m, r as int, r4);
        if sum < SCALE {
            m
        } else {
            let raw = m - (r4 * spec_ln(sum)) / (SCALE as int);
            let lo = clip(m - r);
            if raw < lo {
                lo
            } else if raw > m {
                m
            } else {
                raw
            }
        }
    }
}

/// The smooth maximum, dual to [`spec_rvmin`]: `m + (r/4) * ln(sum)`
/// clamped into `[m, m + r]`.
pub open spec fn spec_rvmax(s: Seq<i64>, r: i64, er: i64) -> int {
    let st = spec_max_state(s, er as int);
    let m = st.0;
    let r4 = (r as int) / 4;
    if !st.1 || r4 == 0 {
        m
    } else {
        let sum = spec_exp_sum_max(s, m, r as int, r4);
        if sum < SCALE {
            m
        } else {
            let raw = m + (r4 * spec_ln(sum)) / (SCALE as int);
            let hi = clip(m + r);
            if raw > hi {
                hi
            } else if raw < m {
                m
            } else {
                raw
            }
        }
    }
}

/// Smooth minimum over `v` with rounding radius `r`; exactly the literal
/// minimum whenever the single-pass heuristic saw no other value within
/// `exact_range` of it.
pub fn rvmin(v: &Vec<i64>, r: i64, exact_range: i64) -> (res: i64)
    requires
        r >= 0,
        exact_range >= 0,
        v@.len() <= MAX_TERMS,
    ensures
        res as int == spec_rvmin(v@, r, exact_range),
{
    let ghost er: int = exact_range as int;
    let mut minimum: i64 = i64::MAX;
    let mut close_min: bool = false;
    let n: usize = v.len();
    let mut i: usize = 0;
    while i < n
        invariant
            0 <= i <= n,
            n == v@.len(),
            exact_range >= 0,
            er == exact_range as int,
            (minimum as int, close_min) == spec_min_state(v@.take(i as int), er),
        decreases n - i,
    {
        let x: i64 = v[i];
        proof {
            assert(v@.take(i as int + 1).drop_last() =~= v@.take(i as int));
            assert(v@.take(i as int + 1).last() == v@[i as int]);
        }
        if x < minimum {
            close_min = (minimum as i128) - (x as i128) < (exact_range as i128);
            minimum = x;
        } else {
            if (x as i128) - (minimum as i128) < (exact_range as i128) {
                close_min = true;
            }
        }
        i = i + 1;
    }
    proof {
        assert(v@.take(n as int) =~= v@);
    }
    if !close_min {
        return minimum;
    }
    let r4: i64 = ((r as u64) / 4) as i64;
    proof {
        assert(r4 as int == (r as int) / 4);
    }
    if r4 == 0 {
        return minimum;
    }
    let min_plus_r: i64 = crate::scalar::sat_add(minimum, r);
    let ghost m: int = minimum as int;
    let mut sum: i64 = 0;
    let mut j: usize = 0;
    while j < n
        invariant
            0 <= j <= n,
            n == v@.len(),
            n <= MAX_TERMS,
            er == exact_range as int,
            r >= 0,
            1 <= r4,
            r4 as int == (r as int) / 4,
            m == minimum as int,
            (minimum as int, close_min) == spec_min_state(v@, er),
            min_plus_r as int == clip(m + r),
            sum as int == spec_exp_sum_min(v@.take(j as int), m, r as int, r4 as int),
            0 <= sum as int <= (j as int) * (SCALE as int),
        decreases n - j,
    {
        let x: i64 = v[j];
        proof {
            assert(v@.take(j as int + 1).drop_last() =~= v@.take(j as int));
            assert(v@.take(j as int + 1).last() == v@[j as int]);
            lemma_min_state_le(v@, er, j as int);
        }
        if x < min_plus_r {
            proof {
                assert(0 <= x as int - m <= i64::MAX);
                lemma_i64_mul_fits(x as int - m, SCALE as int);
            }
            let tw: i128 = wide_floor_div(
                ((x as i128) - (minimum as i128)) * (SCALE as i128), r4 as i128);
            proof {
                vstd::arithmetic::div_mod::lemma_div_pos_is_pos(
                    (x as int - m) * (SCALE as int), r4 as int);
            }
            let tc: i64 = if tw > 4 * (SCALE as i128) {
                4 * SCALE
            } else {
                tw as i64
            };
            let term: i64 = exp_neg(tc);
            proof {
                assert((j as int) * (SCALE as int) + (SCALE as int)
                    == (j as int + 1) * (SCALE as int)) by (nonlinear_arith);
                assert((j as int + 1) * (SCALE as int)
                    <= (MAX_TERMS as int) * (SCALE as int)) by (nonlinear_arith)
                    requires j as int + 1 <= MAX_TERMS as int;
            }
            sum = sum + term;
        } else {
            proof {
                assert((j as int) * (SCALE as int)
                    <= (j as int + 1) * (SCALE as int)) by (nonlinear_arith);
            }
        }
        j = j + 1;
    }
    proof {
        assert(v@.take(n as int) =~= v@);
        assert((n as int) * (SCALE as int) <= (MAX_TERMS as int) * (SCALE as int))
            by (nonlinear_arith)
            requires n as int <= MAX_TERMS as int;
    }
    if sum < SCALE {
        return minimum;
    }
    let lnv: i64 = ln_fixed(sum);
    proof {
        lemma_i64_mul_fits(r4 as int, lnv as int);
    }
    let shift: i128 = wide_floor_div((r4 as i128) * (lnv as i128), SCALE as i128);
    let raw: i128 = (minimum as i128) - shift;
    let lo: i64 = crate::scalar::sat_sub(minimum, r);
    if raw < lo as i128 {
        lo
    } else if raw > minimum as i128 {
        minimum
    } else {
        raw as i64
    }
}

/// Smooth maximum over `v` with rounding radius `r`; dual to [`rvmin`].
pub fn rvmax(v: &Vec<i64>, r: i64, exact_range: i64) -> (res: i64)
    requires
        r >= 0,
        exact_range >= 0,
        v@.len() <= MAX_TERMS,
    ensures
        res as int == spec_rvmax(v@, r, exact_range),
{
    let ghost er: int = exact_range as int;
    let mut maximum: i64 = i64::MIN;
    let mut close_max: bool = false;
    let n: usize = v.len();
    let mut i: usize = 0;
    while i < n
        invariant
            0 <= i <= n,
            n == v@.len(),
            exact_range >= 0,
            er == exact_range as int,
            (maximum as int, close_max) == spec_max_state(v@.take(i as int), er),
        decreases n - i,
    {
        let x: i64 = v[i];
        proof {
            assert(v@.take(i as int + 1).drop_last() =~= v@.take(i as int));
            assert(v@.take(i as int + 1).last() == v@[i as int]);
        }
        if x > maximum {
            close_max = (x as i128) - (maximum as i128) < (exact_range as i128);
            maximum = x;
        } else {
            if (maximum as i128) - (x as i128) < (exact_range as i128) {
                close_max = true;
            }
        }
        i = i + 1;
    }
    proof {
        assert(v@.take(n as int) =~= v@);
    }
    if !close_max {
        return maximum;
    }
    let r4: i64 = ((r as u64) / 4) as i64;
    proof {
        assert(r4 as int == (r as int) / 4);
    }
    if r4 == 0 {
        return maximum;
    }
    let max_minus_r: i64 = crate::scalar::sat_sub(maximum, r);
    let ghost m: int = maximum as int;
    let mut sum: i64 = 0;
    let mut j: usize = 0;
    while j < n
        invariant
            0 <= j <= n,
            n == v@.len(),
            n <= MAX_TERMS,
            er == exact_range as int,
            r >= 0,
            1 <= r4,
            r4 as int == (r as int) / 4,
            m == maximum as int,
            (maximum as int, close_max) == spec_max_state(v@, er),
            max_minus_r as int == clip(m - r),
            sum as int == spec_exp_sum_max(v@.take(j as int), m, r as int, r4 as int),
            0 <= sum as int <= (j as int) * (SCALE as int),
        decreases n - j,
    {
        let x: i64 = v[j];
        proof {
            assert(v@.take(j as int + 1).drop_last() =~= v@.take(j as int));
            assert(v@.take(j as int + 1).last() == v@[j as int]);
            lemma_max_state_ge(v@, er, j as int);
        }
        if x > max_minus_r {
            proof {
                assert(0 <= m - x as int <= i64::MAX);
                lemma_i64_mul_fits(m - x as int, SCALE as int);
            }
            let tw: i128 = wide_floor_div(
                ((maximum as i128) - (x as i128)) * (SCALE as i128), r4 as i128);
            proof {
                vstd::arithmetic::div_mod::lemma_div_pos_is_pos(
                    (m - x as int) * (SCALE as int), r4 as int);
            }
            let tc: i64 = if tw > 4 * (SCALE as i128) {
                4 * SCALE
            } else {
                tw as i64
            };
            let term: i64 = exp_neg(tc);
            proof {
                assert((j as int) * (SCALE as int) + (SCALE as int)
                    == (j as int + 1) * (SCALE as int)) by (nonlinear_arith);
                assert((j as int + 1) * (SCALE as int)
                    <= (MAX_TERMS as int) * (SCALE as int)) by (nonlinear_arith)
                    requires j as int + 1 <= MAX_TERMS as int;
            }
            sum = sum + term;
        } else {
            proof {
                assert((j as int) * (SCALE as int)
                    <= (j as int + 1) * (SCALE as int)) by (nonlinear_arith);
            }
        }
        j = j + 1;
    }
    proof {
        assert(v@.take(n as int) =~= v@);
        assert((n as int) * (SCALE as int) <= (MAX_TERMS as int) * (SCALE as int))
            by (nonlinear_arith)
            requires n as int <= MAX_TERMS as int;
    }
    if sum < SCALE {
        return maximum;
    }
    let lnv: i64 = ln_fixed(sum);
    proof {
        lemma_i64_mul_fits(r4 as int, lnv as int);
    }
    let shift: i128 = wide_floor_div((r4 as i128) * (lnv as i128), SCALE as i128);
    let raw: i128 = (maximum as i128) + shift;
    let hi: i64 = crate::scalar::sat_add(maximum, r);
    if raw > hi as i128 {
        hi
    } else if raw < maximum as i128 {
        maximum
    } else {
        raw as i64
    }
}

/// The fold's minimum stays in the scalar range.
pub proof fn lemma_min_state_range(s: Seq<i64>, er: int)
    ensures
        i64::MIN as int <= spec_min_state(s, er).0 <= i64::MAX as int,
    decreases s.len(),
{
    if s.len() > 0 {
        lemma_min_state_range(s.drop_last(), er);
    }
}

/// The fold's maximum stays in the scalar range.
pub proof fn lemma_max_state_range(s: Seq<i64>, er: int)
    ensures
        i64::MIN as int <= spec_max_state(s, er).0 <= i64::MAX as int,
    decreases s.len(),
{
    if s.len() > 0 {
        lemma_max_state_range(s.drop_last(), er);
    }
}

/// The smooth minimum stays in the scalar range.
pub proof fn lemma_rvmin_range(s: Seq<i64>, r: i64, er: i64)
    ensures
        i64::MIN as int <= spec_rvmin(s, r, er) <= i64::MAX as int,
{
    lemma_min_state_range(s, er as int);
}

/// The smooth maximum stays in the scalar range.
pub proof fn lemma_rvmax_range(s: Seq<i64>, r: i64, er: i64)
    ensures
        i64::MIN as int <= spec_rvmax(s, r, er) <= i64::MAX as int,
{
    lemma_max_state_range(s, er as int);
}

/// The smooth minimum is conservative: it never rises above the literal
/// minimum, and the rounding never pulls it more than `r` below it.
pub proof fn lemma_rvmin_conservative(s: Seq<i64>, r: i64, er: i64)
    requires
        r >= 0,
    ensures
        spec_rvmin(s, r, er) <= spec_min_state(s, er as int).0,
        spec_rvmin(s, r, er) >= clip(spec_min_state(s, er as int).0 - r),
{
    lemma_min_state_range(s, er as int);
}

/// Dual of [`lemma_rvmin_conservative`]: the smooth maximum never falls
/// below the literal maximum, nor exceeds it by more than `r`.
pub proof fn lemma_rvmax_conservative(s: Seq<i64>, r: i64, er: i64)
    requires
        r >= 0,
    ensures
        spec_rvmax(s, r, er) >= spec_max_state(s, er as int).0,
        spec_rvmax(s, r, er) <= clip(spec_max_state(s, er as int).0 + r),
{
    lemma_max_state_range(s, er as int);
}

/// When every two values are at least `er` apart (and none sits within
/// `er` of the top sentinel), the heuristic never fires and the smooth
/// minimum is the literal minimum.
pub proof fn lemma_rvmin_far_apart(s: Seq<i64>, r: i64, er: i64)
    requires
        er >= 0,
        forall|i: int, j: int|
            0 <= i < s.len() && 0 <= j < s.len() && i != j
                ==> #[trigger] (s[i] - s[j]) >= er || s[j] - s[i] >= er,
        forall|i: int| 0 <= i < s.len() ==> #[trigger] s[i] <= i64::MAX - er,
    ensures
        !spec_min_state(s, er as int).1,
        spec_rvmin(s, r, er) == spec_min_state(s, er as int).0,
        forall|i: int| 0 <= i < s.len()
            ==> spec_rvmin(s, r, er) <= #[trigger] (s[i] as int),
        s.len() > 0 ==> exists|i: int|
            0 <= i < s.len() && s[i] as int == spec_rvmin(s, r, er),
    decreases s.len(),
{
    if s.len() > 0 {
        let t = s.drop_last();
        assert(forall|i: int| 0 <= i < t.len() ==> t[i] == s[i]);
        lemma_rvmin_far_apart(t, r, er);
        let prev = spec_min_state(t, er as int);
        let x = s.last() as int;
        if t.len() > 0 && prev.0 != i64::MAX as int {
            lemma_min_state_exists(t, er as int);
            let k = choose|k: int| 0 <= k < t.len() && t[k] as int == prev.0;
            assert(s[k] - s[s.len() - 1] >= er || s[s.len() - 1] - s[k] >= er);
        }
    }
    assert forall|i: int| 0 <= i < s.len()
        implies spec_rvmin(s, r, er) <= #[trigger] (s[i] as int) by {
        lemma_min_state_le(s, er as int, i);
    }
    if s.len() > 0 {
        lemma_min_state_exists(s, er as int);
    }
}

/// Dual of [`lemma_rvmin_far_apart`] for the smooth maximum.
pub proof fn lemma_rvmax_far_apart(s: Seq<i64>, r: i64, er: i64)
    requires
        er >= 0,
        forall|i: int, j: int|
            0 <= i < s.len() && 0 <= j < s.len() && i != j
                ==> #[trigger] (s[i] - s[j]) >= er || s[j] - s[i] >= er,
        forall|i: int| 0 <= i < s.len() ==> #[trigger] s[i] >= i64::MIN + er,
    ensures
        !spec_max_state(s, er as int).1,
        spec_rvmax(s, r, er) == spec_max_state(s, er as int).0,
        forall|i: int| 0 <= i < s.len()
            ==> spec_rvmax(s, r, er) >= #[trigger] (s[i] as int),
        s.len() > 0 ==> exists|i: int|
            0 <= i < s.len() && s[i] as int == spec_rvmax(s, r, er),
    decreases s.len(),
{
    if s.len() > 0 {
        let t = s.drop_last();
        assert(forall|i: int| 0 <= i < t.len() ==> t[i] == s[i]);
        lemma_rvmax_far_apart(t, r, er);
        let prev = spec_max_state(t, er as int);
        let x = s.last() as int;
        if t.len() > 0 && prev.0 != i64::MIN as int {
            lemma_max_state_exists(t, er as int);
            let k = choose|k: int| 0 <= k < t.len() && t[k] as int == prev.0;
            assert(s[k] - s[s.len() - 1] >= er || s[s.len() - 1] - s[k] >= er);
        }
    }
    assert forall|i: int| 0 <= i < s.len()
        implies spec_rvmax(s, r, er) >= #[trigger] (s[i] as int) by {
        lemma_max_state_ge(s, er as int, i);
    }
    if s.len() > 0 {
        lemma_max_state_exists(s, er as int);
    }
}

} // verus!
