//! Fixed-point scalar arithmetic.
//!
//! A scalar is an `i64` holding a real number in units of `1 / SCALE`.
//! The two extreme values of `i64` serve as the infinite sentinels that the
//! bounding-box algebra needs, and every operation saturates at them, so
//! that, like IEEE infinities, they propagate consistently instead of
//! wrapping around.

use vstd::prelude::*;

verus! {

/// Number of fixed-point units per 1.0.
pub const SCALE: i64 = 1_000_000;

/// The "plus infinity" sentinel scalar.
pub const INFINITY: i64 = i64::MAX;

/// The "minus infinity" sentinel scalar.
pub const NEG_INFINITY: i64 = i64::MIN;

/// Saturate an unbounded integer into the representable scalar range.
pub open spec fn clip(x: int) -> int {
    if x > i64::MAX as int {
        i64::MAX as int
    } else if x < i64::MIN as int {
        i64::MIN as int
    } else {
        x
    }
}

/// The smaller of two integers.
pub open spec fn smin(a: int, b: int) -> int {
    if a <= b {
        a
    } else {
        b
    }
}

/// The larger of two integers.
pub open spec fn smax(a: int, b: int) -> int {
    if a >= b {
        a
    } else {
        b
    }
}

/// Saturating addition of two scalars.
pub fn sat_add(a: i64, b: i64) -> (r: i64)
    ensures
        r as int == clip(a + b),
{
    let s: i128 = a as i128 + b as i128;
    if s > i64::MAX as i128 {
        i64::MAX
    } else if s < i64::MIN as i128 {
        i64::MIN
    } else {
        s as i64
    }
}

/// Saturating subtraction of two scalars.
pub fn sat_sub(a: i64, b: i64) -> (r: i64)
    ensures
        r as int == clip(a - b),
{
    let s: i128 = a as i128 - b as i128;
    if s > i64::MAX as i128 {
        i64::MAX
    } else if s < i64::MIN as i128 {
        i64::MIN
    } else {
        s as i64
    }
}

/// Saturating negation of a scalar; maps each infinity onto the other.
pub fn sat_neg(a: i64) -> (r: i64)
    ensures
        r as int == clip(-(a as int)),
        a == i64::MIN ==> r == i64::MAX,
        a == i64::MAX ==> r == i64::MIN + 1,
{
    if a == i64::MIN {
        i64::MAX
    } else {
        -a
    }
}

/// The smaller of two scalars.
pub fn min_val(a: i64, b: i64) -> (r: i64)
    ensures
        r as int == smin(a as int, b as int),
{
    if a <= b {
        a
    } else {
        b
    }
}

/// The larger of two scalars.
pub fn max_val(a: i64, b: i64) -> (r: i64)
    ensures
        r as int == smax(a as int, b as int),
{
    if a >= b {
        a
    } else {
        b
    }
}

/// Floor division of a wide intermediate by a positive divisor.
///
/// Rust's `/` truncates toward zero; the kernel's fixed-point algebra wants
/// the floor, so negative dividends are handled through their magnitude.
pub fn wide_floor_div(a: i128, b: i128) -> (r: i128)
    requires
        0 < b <= 0x8000_0000_0000_0000,
        -0x4000_0000_0000_0000_0000_0000_0000_0000 <= a
            <= 0x4000_0000_0000_0000_0000_0000_0000_0000,
    ensures
        r == (a as int) / (b as int),
{
    if a >= 0 {
        let q: u128 = (a as u128) / (b as u128);
        proof {
            vstd::arithmetic::div_mod::lemma_div_pos_is_pos(a as int, b as int);
            vstd::arithmetic::div_mod::lemma_div_nonincreasing(a as int, b as int);
        }
        q as i128
    } else {
        let m: u128 = (-a) as u128;
        let q: u128 = (m + (b as u128) - 1) / (b as u128);
        proof {
            let mi = m as int;
            let bi = b as int;
            let d = (mi + bi - 1) / bi;
            let e = (mi + bi - 1) % bi;
            vstd::arithmetic::div_mod::lemma_fundamental_div_mod(mi + bi - 1, bi);
            vstd::arithmetic::div_mod::lemma_mod_bound(mi + bi - 1, bi);
            assert(mi + bi - 1 == bi * d + e);
            assert(d >= 0) by {
                vstd::arithmetic::div_mod::lemma_div_pos_is_pos(mi + bi - 1, bi);
            }
            assert(d <= mi) by {
                assert(mi <= bi * mi) by (nonlinear_arith)
                    requires mi >= 0, bi >= 1;
                assert((bi * mi + bi - 1) / bi == mi) by {
                    vstd::arithmetic::div_mod::lemma_fundamental_div_mod_converse(
                        bi * mi + bi - 1, bi, mi, bi - 1);
                }
                vstd::arithmetic::div_mod::lemma_div_is_ordered(
                    mi + bi - 1, bi * mi + bi - 1, bi);
            }
            assert(-mi == a as int);
            assert(-mi == bi * (-d) + (bi - 1 - e)) by (nonlinear_arith)
                requires mi + bi - 1 == bi * d + e;
            assert(0 <= bi - 1 - e < bi);
            vstd::arithmetic::div_mod::lemma_fundamental_div_mod_converse(
                -mi, bi, -d, bi - 1 - e);
            assert((-mi) / bi == -d);
        }
        -(q as i128)
    }
}

/// The product of two `i64` values stays well inside the `i128` range.
pub proof fn lemma_i64_mul_fits(a: int, b: int)
    requires
        i64::MIN <= a <= i64::MAX,
        i64::MIN <= b <= i64::MAX,
    ensures
        -0x4000_0000_0000_0000_0000_0000_0000_0000 <= a * b
            <= 0x4000_0000_0000_0000_0000_0000_0000_0000,
{
    assert(-0x4000_0000_0000_0000_0000_0000_0000_0000 <= a * b
        <= 0x4000_0000_0000_0000_0000_0000_0000_0000) by (nonlinear_arith)
        requires
            -0x8000_0000_0000_0000 <= a <= 0x7fff_ffff_ffff_ffff,
            -0x8000_0000_0000_0000 <= b <= 0x7fff_ffff_ffff_ffff,
    ;
}

/// Fixed-point product: `(a * b) / SCALE`, floored, saturated.
pub fn mul_scale(a: i64, b: i64) -> (r: i64)
    ensures
        r as int == clip((a * b) / (SCALE as int)),
{
    proof {
        lemma_i64_mul_fits(a as int, b as int);
    }
    let p: i128 = (a as i128) * (b as i128);
    let q: i128 = wide_floor_div(p, SCALE as i128);
    if q > i64::MAX as i128 {
        i64::MAX
    } else if q < i64::MIN as i128 {
        i64::MIN
    } else {
        q as i64
    }
}

/// Fixed-point quotient: `(a * SCALE) / b`, floored, saturated.
pub fn div_scale(a: i64, b: i64) -> (r: i64)
    requires
        b > 0,
    ensures
        r as int == clip((a * SCALE) / (b as int)),
{
    proof {
        lemma_i64_mul_fits(a as int, SCALE as int);
    }
    let p: i128 = (a as i128) * (SCALE as i128);
    let q: i128 = wide_floor_div(p, b as i128);
    if q > i64::MAX as i128 {
        i64::MAX
    } else if q < i64::MIN as i128 {
        i64::MIN
    } else {
        q as i64
    }
}

/// Integer square root, defined by counting up.
pub open spec fn spec_isqrt(n: int) -> int
    decreases n,
{
    if n <= 0 {
        0
    } else {
        let p = spec_isqrt(n - 1);
        if (p + 1) * (p + 1) <= n {
            p + 1
        } else {
            p
        }
    }
}

/// `spec_isqrt(n)` is the floor of the real square root of `n`.
pub proof fn lemma_isqrt_bounds(n: int)
    requires
        n >= 0,
    ensures
        spec_isqrt(n) >= 0,
        spec_isqrt(n) * spec_isqrt(n) <= n,
        n < (spec_isqrt(n) + 1) * (spec_isqrt(n) + 1),
    decreases n,
{
    if n == 0 {
    } else {
        lemma_isqrt_bounds(n - 1);
        let p = spec_isqrt(n - 1);
        if (p + 1) * (p + 1) <= n {
            assert(n < (p + 2) * (p + 2)) by (nonlinear_arith)
                requires
                    p >= 0,
                    n - 1 < (p + 1) * (p + 1),
            ;
        }
    }
}

/// Any `r` with `r * r <= n < (r + 1) * (r + 1)` equals `spec_isqrt(n)`.
pub proof fn lemma_isqrt_unique(n: int, r: int)
    requires
        n >= 0,
        r >= 0,
        r * r <= n,
        n < (r + 1) * (r + 1),
    ensures
        r == spec_isqrt(n),
{
    lemma_isqrt_bounds(n);
    let s = spec_isqrt(n);
    if r < s {
        assert((r + 1) * (r + 1) <= s * s) by (nonlinear_arith)
            requires 0 <= r, r + 1 <= s;
    }
    if s < r {
        assert((s + 1) * (s + 1) <= r * r) by (nonlinear_arith)
            requires 0 <= s, s + 1 <= r;
    }
}

/// Integer square root of a wide unsigned value, by bisection.
pub fn isqrt(x: u128) -> (r: u128)
    requires
        x < 0x4000_0000_0000_0000_0000_0000_0000_0000,
    ensures
        r * r <= x,
        x < (r + 1) * (r + 1),
        r as int == spec_isqrt(x as int),
{
    let mut lo: u128 = 0;
    let mut hi: u128 = 0x8000_0000_0000_0000;
    proof {
        assert((hi * hi) as int == 0x4000_0000_0000_0000_0000_0000_0000_0000)
            by (nonlinear_arith)
            requires hi == 0x8000_0000_0000_0000u128;
    }
    while hi - lo > 1
        invariant
            lo < hi,
            hi <= 0x8000_0000_0000_0000,
            lo * lo <= x,
            x < hi * hi,
        decreases hi - lo,
    {
        let mid: u128 = lo + (hi - lo) / 2;
        assert(lo < mid < hi);
        proof {
            assert(mid * mid <= 0x4000_0000_0000_0000_0000_0000_0000_0000)
                by (nonlinear_arith)
                requires mid <= 0x8000_0000_0000_0000u128;
        }
        if mid * mid <= x {
            lo = mid;
        } else {
            hi = mid;
        }
    }
    proof {
        assert(hi == lo + 1);
        lemma_isqrt_unique(x as int, lo as int);
    }
    lo
}

} // verus!
