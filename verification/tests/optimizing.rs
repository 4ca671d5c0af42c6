//! The analytic-descent optimizer: monotone non-regression against the
//! Uhrig baseline, the entry contract, and the robustness constraint.

use sfe_core::fp::{FP_ONE, fp_from_ratio};
use sfe_core::eval::EvalConfig;
use sfe_core::optimizer::{SfeOptimizer, MIN_FIRST_PULSE_FP, DESCENT_BETA_FP, run_pulse_optimizer};
use sfe_core::noise::PinkNoiseGenerator;
use sfe_core::rng::SfeRng;
use sfe_core::SfeError;

fn small_pool(steps: u64, traces: usize) -> Vec<Vec<i64>> {
    let mut rng = SfeRng::from_entropy();
    let gen = PinkNoiseGenerator::new_with_params(steps, fp_from_ratio(4, 5), fp_from_ratio(3, 20))
        .unwrap();
    (0..traces).map(|_| gen.generate_new(&mut rng)).collect()
}

#[test]
fn descent_never_returns_below_the_baseline() {
    let steps: u64 = 128;
    let pool = small_pool(steps, 6);
    let opt = SfeOptimizer::new(DESCENT_BETA_FP);
    let c = EvalConfig { moment_order: 3, notch_omega: 0, notch_weight: 0 };
    let out = opt.optimize(steps, 6, fp_from_ratio(1, 10), &pool, &c);
    assert!(out.score >= out.baseline_score);
    assert_eq!(out.times.len(), 6);
    for &t in out.times.iter() {
        assert!(t >= 0 && t <= FP_ONE);
    }
    for w in out.seq.windows(2) {
        assert!(w[0] < w[1]);
    }
    for &idx in out.seq.iter() {
        assert!(idx > 0 && idx < steps);
    }
}

#[test]
fn descent_tolerates_an_empty_pool() {
    let pool: Vec<Vec<i64>> = Vec::new();
    let opt = SfeOptimizer::new(DESCENT_BETA_FP);
    let c = EvalConfig { moment_order: 3, notch_omega: 0, notch_weight: 0 };
    let out = opt.optimize(64, 4, fp_from_ratio(1, 10), &pool, &c);
    // every sequence scores zero against nothing
    assert_eq!(out.baseline_score, 0);
    assert_eq!(out.score, 0);
}

#[test]
fn robust_variant_enforces_the_first_pulse_constraint() {
    let steps: u64 = 128;
    let pool = small_pool(steps, 4);
    let opt = SfeOptimizer::new(DESCENT_BETA_FP);
    let out = opt.optimize_for_spec(
        steps,
        5,
        fp_from_ratio(1, 10),
        &pool,
        3,
        Some(fp_from_ratio(1, 4)),
    );
    assert!(out.times.iter().any(|&t| t >= MIN_FIRST_PULSE_FP));
    for &t in out.times.iter() {
        assert!(t >= 0 && t <= FP_ONE);
    }
    // the reported sequence is normalized: sorted, unique, in range
    for w in out.seq.windows(2) {
        assert!(w[0] < w[1]);
    }
    for &idx in out.seq.iter() {
        assert!(idx > 0 && idx < steps);
    }
}

#[test]
fn entry_point_reports_baseline_and_achieved_scores() {
    let mut rng = SfeRng::from_entropy();
    let c = EvalConfig { moment_order: 3, notch_omega: 0, notch_weight: 0 };
    let (seq, udd_score, sfe_score) = run_pulse_optimizer(
        96,
        5,
        fp_from_ratio(1, 10),
        fp_from_ratio(4, 5),
        fp_from_ratio(3, 20),
        8,
        &c,
        &mut rng,
    )
    .unwrap();
    assert!(sfe_score >= udd_score);
    assert_eq!(seq.len(), 5);
    for &idx in seq.iter() {
        assert!(idx <= 96);
    }
}

#[test]
fn entry_point_rejects_invalid_durations() {
    let mut rng = SfeRng::from_entropy();
    let c = EvalConfig { moment_order: 3, notch_omega: 0, notch_weight: 0 };
    let r = run_pulse_optimizer(1, 5, 0, 0, 0, 4, &c, &mut rng);
    assert_eq!(r.unwrap_err(), SfeError::InvalidArgument);
    let r2 = run_pulse_optimizer(64, 5, 0, 0, 0, 100000, &c, &mut rng);
    assert_eq!(r2.unwrap_err(), SfeError::InvalidArgument);
}

#[test]
fn population_search_never_returns_below_the_baseline() {
    let mut rng = SfeRng::from_entropy();
    let steps: u64 = 96;
    let pool = small_pool(steps, 3);
    let search = sfe_core::population::PopulationSearch::new();
    let c = EvalConfig { moment_order: 3, notch_omega: 0, notch_weight: 0 };
    let out = search.optimize(steps, 5, fp_from_ratio(1, 10), 6, &pool, &c, &mut rng);
    assert!(out.score >= out.baseline_score);
    for w in out.seq.windows(2) {
        assert!(w[0] < w[1]);
    }
    for &idx in out.seq.iter() {
        assert!(idx > 0 && idx < steps);
    }
}

#[test]
fn both_strategies_share_the_same_baseline() {
    // the two interchangeable strategies report the same Uhrig baseline
    // against the same pool, so callers can compare them directly
    let mut rng = SfeRng::from_entropy();
    let steps: u64 = 96;
    let pool = small_pool(steps, 3);
    let c = EvalConfig { moment_order: 3, notch_omega: 0, notch_weight: 0 };
    let descent = SfeOptimizer::new(DESCENT_BETA_FP).optimize(steps, 5, fp_from_ratio(1, 10), &pool, &c);
    let search = sfe_core::population::PopulationSearch::new();
    let pop_out = search.optimize(steps, 5, fp_from_ratio(1, 10), 4, &pool, &c, &mut rng);
    assert_eq!(descent.baseline_score, pop_out.baseline_score);
}
