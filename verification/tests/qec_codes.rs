//! The QEC Monte-Carlo layer: error reporting at the call boundary, rate
//! bookkeeping, the distance-one law, and the zero-noise surface-code law.

use sfe_core::fp::{FP_ONE, fp_from_ratio, fp_from_int};
use sfe_core::qec::{QecConfig, simulate_repetition_code, simulate_surface_code_d3};
use sfe_core::rng::SfeRng;
use sfe_core::SfeError;

fn base_cfg() -> QecConfig {
    QecConfig {
        alpha: fp_from_ratio(4, 5),
        scale: fp_from_ratio(3, 20),
        t1_steps: fp_from_int(100000),
        gate_err: fp_from_ratio(1, 1000),
        meas_err: fp_from_ratio(1, 1000),
        rho: 0,
        tone_omega: 0,
        tone_amp: 0,
    }
}

#[test]
fn even_distance_is_rejected_before_any_work() {
    let mut rng = SfeRng::from_entropy();
    let cfg = base_cfg();
    let seq: Vec<u64> = vec![10, 20];
    let r = simulate_repetition_code(4, &seq, fp_from_ratio(1, 10), 200, 50, 10, &cfg, &mut rng);
    assert_eq!(r.unwrap_err(), SfeError::InvalidArgument);
    // a zero cycle length would divide by zero: rejected too
    let r2 = simulate_repetition_code(3, &seq, fp_from_ratio(1, 10), 200, 0, 10, &cfg, &mut rng);
    assert_eq!(r2.unwrap_err(), SfeError::InvalidArgument);
    // so is a degenerate duration
    let r3 = simulate_repetition_code(3, &seq, fp_from_ratio(1, 10), 1, 50, 10, &cfg, &mut rng);
    assert_eq!(r3.unwrap_err(), SfeError::InvalidArgument);
}

#[test]
fn repetition_rates_are_exact_quotients_of_the_counts() {
    let mut rng = SfeRng::from_entropy();
    let cfg = base_cfg();
    let seq: Vec<u64> = vec![5, 17, 29];
    let res = simulate_repetition_code(3, &seq, fp_from_ratio(1, 5), 128, 32, 100, &cfg, &mut rng)
        .unwrap();
    assert_eq!(res.distance, 3);
    assert_eq!(res.trials, 100);
    assert_eq!(res.physical_slots, 100 * 3 * 4);
    assert!(res.logical_failures <= res.trials);
    assert!(res.physical_flips <= res.physical_slots);
    // rate = flips / slots, exactly
    let expect_phy = fp_from_int(res.physical_flips as i64) / res.physical_slots as i64;
    assert_eq!(res.physical_error_rate, expect_phy);
    let expect_log = fp_from_int(res.logical_failures as i64) / res.trials as i64;
    assert_eq!(res.logical_error_rate, expect_log);
    assert!(res.logical_error_rate >= 0 && res.logical_error_rate <= FP_ONE);
    if res.logical_error_rate == 0 {
        assert_eq!(res.gain, -FP_ONE);
    } else {
        assert!(res.gain >= 0);
    }
}

#[test]
fn distance_one_logical_rate_equals_the_single_qubit_rate() {
    // at distance one no majority correction is possible: with ideal
    // measurement and a single cycle per trial, every physical flip is a
    // logical failure and conversely, so the two rates agree exactly
    let mut rng = SfeRng::from_entropy();
    let mut cfg = base_cfg();
    cfg.meas_err = 0;
    let seq: Vec<u64> = Vec::new();
    let res = simulate_repetition_code(1, &seq, fp_from_ratio(1, 20), 64, 64, 400, &cfg, &mut rng)
        .unwrap();
    assert_eq!(res.physical_slots, 400);
    assert_eq!(res.trials, 400);
    assert_eq!(res.physical_flips, res.logical_failures);
    assert_eq!(res.physical_error_rate, res.logical_error_rate);
}

#[test]
fn zero_noise_surface_code_reports_exactly_zero() {
    let mut rng = SfeRng::from_entropy();
    let mut cfg = base_cfg();
    cfg.meas_err = 0;
    let seq: Vec<u64> = vec![3, 9];
    let res = simulate_surface_code_d3(&seq, 0, 64, 16, 200, &cfg, &mut rng).unwrap();
    assert_eq!(res.physical_flips, 0);
    assert_eq!(res.logical_failures, 0);
    assert_eq!(res.physical_error_rate, 0);
    assert_eq!(res.logical_error_rate, 0);
    assert_eq!(res.gain, -FP_ONE);
    assert_eq!(res.distance, 3);
}

#[test]
fn surface_code_rejects_invalid_shapes() {
    let mut rng = SfeRng::from_entropy();
    let cfg = base_cfg();
    let seq: Vec<u64> = Vec::new();
    let r = simulate_surface_code_d3(&seq, 0, 64, 0, 10, &cfg, &mut rng);
    assert_eq!(r.unwrap_err(), SfeError::InvalidArgument);
    let r2 = simulate_surface_code_d3(&seq, 0, 0, 16, 10, &cfg, &mut rng);
    assert_eq!(r2.unwrap_err(), SfeError::InvalidArgument);
}

#[test]
fn surface_code_with_noise_counts_slots_correctly() {
    let mut rng = SfeRng::from_entropy();
    let cfg = base_cfg();
    let seq: Vec<u64> = vec![2, 7, 11];
    let res = simulate_surface_code_d3(&seq, fp_from_ratio(3, 10), 64, 16, 50, &cfg, &mut rng)
        .unwrap();
    assert_eq!(res.physical_slots, 50 * 9 * 4);
    assert!(res.physical_flips <= res.physical_slots);
    assert!(res.logical_failures <= res.trials);
}

#[test]
fn quiet_repetition_code_reports_zero_physical_errors() {
    // zero amplitude, no gate-error floor, relaxation disabled: no flip
    // can occur, whatever the random draws
    let mut rng = SfeRng::from_entropy();
    let mut cfg = base_cfg();
    cfg.gate_err = 0;
    cfg.t1_steps = 0;
    let seq: Vec<u64> = vec![7, 21];
    let res = simulate_repetition_code(3, &seq, 0, 64, 16, 200, &cfg, &mut rng).unwrap();
    assert_eq!(res.physical_flips, 0);
    assert_eq!(res.physical_error_rate, 0);
}
