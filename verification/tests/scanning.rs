//! The sweet-spot grid scan and the controller's decision rules.

use sfe_core::fp::{FP_ONE, fp_from_ratio, fp_from_int, fadd, fsub, fmul, fdivi};
use sfe_core::qec::QecConfig;
use sfe_core::scanner::{SuppressonScanner, SWEET_SPOT_THRESHOLD_FP};
use sfe_core::controller::{SfeController, ControlMode};
use sfe_core::rng::SfeRng;
use sfe_core::SfeError;

fn scan_cfg() -> QecConfig {
    QecConfig {
        alpha: fp_from_ratio(4, 5),
        scale: fp_from_ratio(3, 20),
        t1_steps: fp_from_int(100000),
        gate_err: fp_from_ratio(1, 1000),
        meas_err: fp_from_ratio(1, 1000),
        rho: 0,
        tone_omega: 0,
        tone_amp: 0,
    }
}

#[test]
fn grid_scan_produces_exactly_one_consistent_row_per_point() {
    let mut rng = SfeRng::from_entropy();
    let cfg = scan_cfg();
    let mut scanner = SuppressonScanner::new(64, 3, fp_from_ratio(1, 10), &cfg).unwrap();
    // shrink the per-point cost: the row-shape guarantees are untouched
    scanner.measure_interval = 16;
    scanner.trials = 30;
    scanner.measure_baseline(&mut rng);
    let omega_min = fp_from_ratio(4, 1000);
    let omega_max = fp_from_ratio(16, 1000);
    let amp_min = fp_from_int(4);
    let amp_max = fp_from_int(16);
    let rows = scanner.grid_scan(omega_min, omega_max, amp_min, amp_max, 6, &mut rng);
    assert_eq!(rows.len(), 36);
    for (k, row) in rows.iter().enumerate() {
        // every column populated with its interpolated coordinate, and
        // the flag consistent with the ratio
        let i = (k / 6) as i64;
        let j = (k % 6) as i64;
        let omega_expect = fadd(omega_min, fdivi(fmul(fsub(omega_max, omega_min), fp_from_int(i)), 5));
        let amp_expect = fadd(amp_min, fdivi(fmul(fsub(amp_max, amp_min), fp_from_int(j)), 5));
        assert_eq!(row.omega_sim, omega_expect);
        assert_eq!(row.amplitude_sim, amp_expect);
        assert_eq!(row.is_sweet_spot, row.improvement_over_baseline > SWEET_SPOT_THRESHOLD_FP);
    }
}

#[test]
fn sweet_spots_are_filtered_and_sorted_by_gain() {
    let mut rng = SfeRng::from_entropy();
    let cfg = scan_cfg();
    let mut scanner = SuppressonScanner::new(64, 3, fp_from_ratio(1, 10), &cfg).unwrap();
    scanner.measure_interval = 16;
    scanner.trials = 20;
    scanner.measure_baseline(&mut rng);
    let rows = scanner.grid_scan(0, fp_from_ratio(1, 100), 0, fp_from_int(8), 3, &mut rng);
    let spots = scanner.find_sweet_spots(&rows);
    for s in spots.iter() {
        assert!(s.is_sweet_spot);
    }
    for w in spots.windows(2) {
        assert!(w[0].qec_gain >= w[1].qec_gain);
    }
}

#[test]
fn scanner_rejects_an_even_distance() {
    let cfg = scan_cfg();
    let r = SuppressonScanner::new(64, 2, fp_from_ratio(1, 10), &cfg);
    assert!(matches!(r, Err(SfeError::InvalidArgument)));
}

#[test]
fn diagnosis_reports_a_resonance_only_above_the_threshold() {
    let mut ctl = SfeController::new();
    // strong pure dephasing: t2 far below the relaxation limit
    let spec = ctl.diagnose(fp_from_int(60), fp_from_int(40), fp_from_ratio(1, 1000));
    assert!(spec.tls_freq.is_some());
    assert!(spec.tls_amp > 0);
    assert!(spec.drift_rate > 0);
    // relaxation-limited hardware: no resonance
    let calm = ctl.diagnose(fp_from_int(100), fp_from_int(200), fp_from_ratio(1, 1000));
    assert!(calm.tls_freq.is_none());
    assert_eq!(calm.tls_amp, 0);
    assert_eq!(calm.drift_rate, 0);
}

#[test]
fn strategy_selection_matches_the_decision_rules() {
    let mut ctl = SfeController::new();
    let pool: Vec<Vec<i64>> = Vec::new();
    // strong resonance and rich coherence: cancellation wins
    let hot = ctl.diagnose(fp_from_int(2000), fp_from_ratio(1, 2), 0);
    assert!(hot.tls_amp > FP_ONE);
    let s1 = ctl.select_strategy(&hot, &pool);
    assert_eq!(s1.mode, ControlMode::ANC);
    assert!(s1.pulse_sequence.is_empty());
    assert_eq!(s1.qec_distance, 5);
    // moderate resonance without coherence: the static sequence is used
    let warm = ctl.diagnose(fp_from_int(60), fp_from_int(40), 0);
    let s2 = ctl.select_strategy(&warm, &pool);
    assert_eq!(s2.mode, ControlMode::Static);
    assert_eq!(s2.pulse_sequence.len(), 8);
    // clean hardware: passive
    let calm = ctl.diagnose(fp_from_int(100), fp_from_int(200), 0);
    let s3 = ctl.select_strategy(&calm, &pool);
    assert_eq!(s3.mode, ControlMode::Passive);
    assert!(s3.pulse_sequence.is_empty());
    assert_eq!(s3.expected_gain, FP_ONE);
    assert_eq!(s3.qec_distance, 3);
}
