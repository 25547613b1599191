//! The smooth blends and the fixed-point numeric helpers behind them.

use implicit3d::blend::exp_neg;
use implicit3d::blend::ln_fixed;
use implicit3d::blend::rvmax;
use implicit3d::blend::rvmin;
use implicit3d::scalar::SCALE;
use implicit3d::scalar::isqrt;
use implicit3d::scalar::mul_scale;
use implicit3d::scalar::sat_add;
use implicit3d::scalar::sat_neg;
use implicit3d::scalar::sat_sub;
use implicit3d::scalar::wide_floor_div;

#[test]
fn rvmin_reduces_to_minimum_when_far_apart() {
    // No two inputs within the exact range of each other: the smooth
    // minimum must be exactly the literal minimum.
    let v = vec![5 * SCALE, 1 * SCALE, 3 * SCALE];
    assert_eq!(rvmin(&v, SCALE, SCALE), 1 * SCALE);
    assert_eq!(rvmax(&v, SCALE, SCALE), 5 * SCALE);
}

#[test]
fn rvmin_blends_close_values() {
    // Two equal minima with radius 1.0: the smooth minimum of two equal
    // values is min - (r/4) * ln 2, about 0.8267.
    let v = vec![1 * SCALE, 1 * SCALE];
    let r = rvmin(&v, SCALE, SCALE);
    assert!(r > 800_000);
    assert!(r < 850_000);
    // And dually for the maximum: about 1.1733.
    let m = rvmax(&v, SCALE, SCALE);
    assert!(m > 1_150_000);
    assert!(m < 1_200_000);
}

#[test]
fn rvmin_zero_radius_is_sharp() {
    let v = vec![1 * SCALE, 1 * SCALE];
    assert_eq!(rvmin(&v, 0, SCALE), 1 * SCALE);
    assert_eq!(rvmax(&v, 0, SCALE), 1 * SCALE);
}

#[test]
fn rvmin_heuristic_resets_on_new_minimum() {
    // 1.5 and 1.0 are close (within 1.0), but the far minimum -9 arrives
    // last and resets the single-pass proximity flag, so the literal
    // minimum is returned unsmoothed.  This mirrors the deliberate
    // single-pass heuristic, which compares against the running minimum
    // only.
    let v = vec![3 * SCALE / 2, 1 * SCALE, -9 * SCALE];
    assert_eq!(rvmin(&v, SCALE, SCALE), -9 * SCALE);
}

#[test]
fn exp_neg_values() {
    assert_eq!(exp_neg(0), SCALE);
    // exp(-1) is about 0.367879.
    let e1 = exp_neg(SCALE);
    assert!(e1 > 367_000);
    assert!(e1 < 368_500);
    // exp(-4) is about 0.018316.
    let e4 = exp_neg(4 * SCALE);
    assert!(e4 > 17_500);
    assert!(e4 < 19_000);
}

#[test]
fn ln_fixed_values() {
    assert_eq!(ln_fixed(SCALE), 0);
    // ln e is 1.
    let l = ln_fixed(2_718_282);
    assert!(l > 995_000);
    assert!(l < 1_005_000);
    // ln 2 is about 0.693147.
    let l2 = ln_fixed(2 * SCALE);
    assert!(l2 > 688_000);
    assert!(l2 < 698_000);
}

#[test]
fn isqrt_values() {
    assert_eq!(isqrt(0), 0);
    assert_eq!(isqrt(15), 3);
    assert_eq!(isqrt(16), 4);
    assert_eq!(isqrt(1_000_000_000_000), 1_000_000);
}

#[test]
fn saturating_scalar_arithmetic() {
    assert_eq!(sat_add(i64::MAX, 1), i64::MAX);
    assert_eq!(sat_add(1, 2), 3);
    assert_eq!(sat_sub(i64::MIN, 1), i64::MIN);
    assert_eq!(sat_neg(i64::MIN), i64::MAX);
    assert_eq!(sat_neg(7), -7);
    assert_eq!(mul_scale(3 * SCALE, 2 * SCALE), 6 * SCALE);
    assert_eq!(mul_scale(SCALE, SCALE / 5), SCALE / 5);
}

#[test]
fn wide_division_floors_negatives() {
    assert_eq!(wide_floor_div(7, 2), 3);
    assert_eq!(wide_floor_div(-7, 2), -4);
    assert_eq!(wide_floor_div(-6, 2), -3);
    assert_eq!(wide_floor_div(0, 5), 0);
}
