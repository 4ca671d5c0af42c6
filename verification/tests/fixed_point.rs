//! Exact behaviour of the fixed-point kernel: arithmetic, trigonometry,
//! and the pulse-sequence machinery.

use sfe_core::fp::{FP_ONE, FP_MAX, fadd, fsub, fmul, fdiv, fdivi, fp_from_int, fp_from_ratio};
use sfe_core::trig::{PI_FP, HALF_PI_FP, LN2_FP, cos_fp, sin_fp, exp_neg_fp, ln_fp, sqrt_fp};
use sfe_core::pulse::{normalize_pulses, build_toggle, uhrig_indices, uhrig_norm};

fn to_f64(x: i64) -> f64 {
    x as f64 / 4294967296.0
}

#[test]
fn fp_basic_arithmetic_is_exact() {
    let half = fp_from_ratio(1, 2);
    assert_eq!(half, 2147483648);
    assert_eq!(fadd(half, half), FP_ONE);
    assert_eq!(fmul(FP_ONE, FP_ONE), FP_ONE);
    assert_eq!(fmul(fp_from_int(3), fp_from_int(4)), fp_from_int(12));
    assert_eq!(fsub(fp_from_int(1), fp_from_int(3)), fp_from_int(-2));
    assert_eq!(fdiv(fp_from_int(10), fp_from_int(4)), fp_from_ratio(5, 2));
    assert_eq!(fdivi(fp_from_int(10), 4), fp_from_ratio(5, 2));
    // division by zero is guarded, not a panic
    assert_eq!(fdiv(FP_ONE, 0), 0);
    assert_eq!(fdivi(FP_ONE, 0), 0);
}

#[test]
fn fp_saturates_at_the_range_bounds() {
    assert_eq!(fadd(FP_MAX, FP_MAX), FP_MAX);
    assert_eq!(fsub(-FP_MAX, FP_MAX), -FP_MAX);
    assert_eq!(fmul(FP_MAX, FP_MAX), FP_MAX);
}

#[test]
fn trig_matches_the_mathematical_values() {
    assert_eq!(cos_fp(0), FP_ONE);
    assert!((to_f64(cos_fp(PI_FP)) + 1.0).abs() < 1e-6);
    assert!(to_f64(cos_fp(HALF_PI_FP)).abs() < 1e-6);
    assert!((to_f64(sin_fp(HALF_PI_FP)) - 1.0).abs() < 1e-6);
    assert!((to_f64(cos_fp(fp_from_int(100))) - (100.0f64).cos()).abs() < 1e-3);
    assert!((to_f64(sin_fp(-HALF_PI_FP)) + 1.0).abs() < 1e-6);
}

#[test]
fn exp_and_ln_match_the_mathematical_values() {
    assert_eq!(exp_neg_fp(0), FP_ONE);
    assert_eq!(exp_neg_fp(-5), FP_ONE);
    assert!((to_f64(exp_neg_fp(FP_ONE)) - (-1.0f64).exp()).abs() < 1e-6);
    assert!((to_f64(exp_neg_fp(LN2_FP)) - 0.5).abs() < 1e-6);
    assert_eq!(ln_fp(FP_ONE), 0);
    assert!((to_f64(ln_fp(fp_from_int(2))) - (2.0f64).ln()).abs() < 1e-6);
    assert!((to_f64(ln_fp(fp_from_int(1000))) - (1000.0f64).ln()).abs() < 1e-6);
}

#[test]
fn sqrt_brackets_the_true_root() {
    assert_eq!(sqrt_fp(fp_from_int(4)), fp_from_int(2));
    assert_eq!(sqrt_fp(0), 0);
    let r = sqrt_fp(fp_from_int(2));
    assert!((to_f64(r) - (2.0f64).sqrt()).abs() < 1e-9);
}

#[test]
fn normalization_sorts_dedupes_and_clamps() {
    let raw: Vec<u64> = vec![5, 3, 3, 9, 0, 12, 10];
    let ns = normalize_pulses(&raw, 10);
    assert_eq!(ns, vec![3, 5, 9]);
    let empty: Vec<u64> = Vec::new();
    assert_eq!(normalize_pulses(&empty, 10), empty);
}

#[test]
fn toggle_function_flips_at_each_pulse() {
    let pulses: Vec<u64> = vec![2, 4];
    let y = build_toggle(&pulses, 6);
    assert_eq!(y, vec![true, true, false, false, true, true]);
    let none: Vec<u64> = Vec::new();
    let y0 = build_toggle(&none, 3);
    assert_eq!(y0, vec![true, true, true]);
}

#[test]
fn uhrig_baseline_is_sorted_and_in_range() {
    let n: usize = 8;
    let steps: u64 = 1000;
    let seq = uhrig_indices(steps, n as u64);
    assert!(!seq.is_empty());
    for w in seq.windows(2) {
        assert!(w[0] < w[1]);
    }
    for &idx in seq.iter() {
        assert!(idx > 0 && idx < steps);
    }
    // the normalized times agree with the closed form
    let times = uhrig_norm(n as u64);
    for (j, &t) in times.iter().enumerate() {
        let expect = (((j + 1) as f64 * std::f64::consts::PI) / (2.0 * n as f64 + 2.0))
            .sin()
            .powi(2);
        assert!((to_f64(t) - expect).abs() < 1e-4);
    }
}
