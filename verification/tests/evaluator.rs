//! The sequence-fitness evaluator: permutation invariance, the
//! zero-amplitude law, the penalty formulas, and the degenerate cases.

use sfe_core::fp::{FP_ONE, fp_from_ratio};
use sfe_core::eval::{EvalConfig, evaluate_sequence_with_pool};

fn cfg(order: u64, omega: i64, weight: i64) -> EvalConfig {
    EvalConfig { moment_order: order, notch_omega: omega, notch_weight: weight }
}

/// A deterministic pseudo-noise trace (a fixed linear-congruential walk).
fn det_trace(steps: usize, seed: u64) -> Vec<i64> {
    let mut v = Vec::with_capacity(steps);
    let mut x = seed.wrapping_mul(2654435761).wrapping_add(12345);
    for _ in 0..steps {
        x = x.wrapping_mul(6364136223846793005).wrapping_add(1442695040888963407);
        // a value in roughly [-2, 2]
        let val = ((x >> 33) as i64) - 1073741824;
        v.push(val);
    }
    v
}

fn det_pool(traces: usize, steps: usize) -> Vec<Vec<i64>> {
    (0..traces).map(|k| det_trace(steps, k as u64 + 1)).collect()
}

#[test]
fn score_is_invariant_under_reordering_and_duplicates() {
    let pool = det_pool(5, 200);
    let amp = fp_from_ratio(1, 10);
    let c = cfg(3, 0, 0);
    let s1: Vec<u64> = vec![20, 80, 140, 50, 170];
    let s2: Vec<u64> = vec![170, 50, 20, 140, 80, 80, 20];
    let a = evaluate_sequence_with_pool(&s1, amp, &pool, &c);
    let b = evaluate_sequence_with_pool(&s2, amp, &pool, &c);
    assert_eq!(a, b);
}

#[test]
fn zero_amplitude_scores_exactly_one() {
    // no decoherence at zero noise amplitude, whatever the pulse placement
    let pool = det_pool(7, 100);
    let c = cfg(0, 0, 0);
    for seq in [vec![], vec![10u64, 20, 30], vec![97, 1, 42]] {
        let s = evaluate_sequence_with_pool(&seq, 0, &pool, &c);
        assert_eq!(s, FP_ONE);
    }
}

#[test]
fn empty_pool_scores_zero() {
    let pool: Vec<Vec<i64>> = Vec::new();
    let c = cfg(3, 0, 0);
    let s = evaluate_sequence_with_pool(&vec![5, 10], FP_ONE, &pool, &c);
    assert_eq!(s, 0);
}

#[test]
fn moment_penalty_formula_has_the_expected_exact_value() {
    // three zero traces, no pulses, zero amplitude, order one:
    // dt_norm = 1/2, m0 = 3 * 1/2 = 1.5, penalty = 1.5^2 = 2.25;
    // checkpoints at steps=3 collide, so only the first coherence sample
    // (weight 1 of 10) is taken: coherence = 1/10.
    let pool = vec![vec![0i64; 3], vec![0i64; 3], vec![0i64; 3]];
    let c = cfg(1, 0, 0);
    let s = evaluate_sequence_with_pool(&Vec::new(), 0, &pool, &c);
    let one_tenth = 429496729i64; // FP_ONE / 10, truncated
    let penalty = 9663676416i64; // 2.25 in fixed point
    assert_eq!(s, one_tenth - penalty);
}

#[test]
fn inconsistent_notch_configuration_is_deterministically_inert() {
    let pool = det_pool(4, 120);
    let amp = fp_from_ratio(1, 5);
    let seq: Vec<u64> = vec![15, 60, 90];
    let base = evaluate_sequence_with_pool(&seq, amp, &pool, &cfg(0, 0, 0));
    // frequency without weight, and weight without frequency: both inert
    let only_omega = evaluate_sequence_with_pool(&seq, amp, &pool, &cfg(0, fp_from_ratio(1, 7), 0));
    let only_weight = evaluate_sequence_with_pool(&seq, amp, &pool, &cfg(0, 0, fp_from_ratio(1, 2)));
    assert_eq!(base, only_omega);
    assert_eq!(base, only_weight);
    // both supplied: the notch is active and charges a penalty
    let both = evaluate_sequence_with_pool(
        &seq,
        amp,
        &pool,
        &cfg(0, fp_from_ratio(1, 7), fp_from_ratio(1, 2)),
    );
    assert!(both <= base);
}

#[test]
fn moment_penalty_only_lowers_the_score() {
    let pool = det_pool(4, 150);
    let amp = fp_from_ratio(1, 10);
    let seq: Vec<u64> = vec![30, 75, 120];
    let without = evaluate_sequence_with_pool(&seq, amp, &pool, &cfg(0, 0, 0));
    let with = evaluate_sequence_with_pool(&seq, amp, &pool, &cfg(3, 0, 0));
    assert!(with <= without);
}
