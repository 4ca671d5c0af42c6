//! The analytic coordinate-descent sequence optimizer.
//!
//! Starting from the closed-form Uhrig baseline (normalized times in
//! `(0, 1)`), each coordinate is perturbed by a shrinking step; the first
//! improving move is accepted, and the step is halved whenever a full sweep
//! finds no improvement. The central guarantee — monotone non-regression —
//! is stated on [`optimize`]: the returned sequence never scores below the
//! Uhrig baseline it started from, against the same pool.

use vstd::prelude::*;
use crate::fp::{FP_ONE, FP_MAX, sclamp, smul, fadd, fsub, fmul, fp_from_int};
use crate::pulse::{suhrig, uhrig_norm, norm_spec, normalize_pulses, strictly_increasing, in_range,
    lemma_suhrig_range, lemma_norm_spec_idempotent};
use crate::eval::{EvalConfig, sscore, evaluate_sequence_with_pool};
use crate::SfeError;
use crate::rng::SfeRng;

verus! {

/// Initial coordinate step of the descent: 0.02 of the duration.
pub const DESCENT_STEP_FP: i64 = 85899346;

/// The descent stops when the step falls below 0.001 of the duration.
pub const DESCENT_MIN_STEP_FP: i64 = 4294967;

/// The earliest allowed first pulse under the hardware-robustness
/// constraint: 0.03 of the duration.
pub const MIN_FIRST_PULSE_FP: i64 = 128849019;

/// Notch penalty weight applied when a resonance frequency is supplied.
pub const NOTCH_WEIGHT_FP: i64 = 2147483648;

/// Default smoothing weight of the analytic model.
pub const DESCENT_BETA_FP: i64 = 214748364800;

/// Normalized times mapped to discrete indices: scale by the duration and
/// truncate.
pub open spec fn sto_idx(times: Seq<i64>, steps: u64) -> Seq<u64> {
    times.map_values(
        |t: i64| (smul(t as int, sclamp(steps as int * (FP_ONE as int))) / (FP_ONE as int)) as u64,
    )
}

/// The Uhrig baseline as a sequence of normalized times.
pub open spec fn suhrig_times(n: int) -> Seq<i64> {
    Seq::new(n as nat, |j: int| suhrig(n, j) as i64)
}

/// The score of a raw index sequence against a pool, after normalization:
/// what `evaluate_sequence_with_pool` returns.
pub open spec fn snormscore(pool: Seq<Vec<i64>>, raw: Seq<u64>, amp: int, cfg: EvalConfig) -> int {
    sscore(
        pool,
        norm_spec(raw, if pool.len() == 0 {
            0
        } else {
            pool[0]@.len() as u64
        }),
        amp,
        cfg,
    )
}

/// The result of one optimizer run: the chosen normalized times (in the
/// order the search left them), the same choice as a normalized
/// pulse-index sequence (sorted, duplicate-free, strictly inside the
/// duration — the PulseSequence form consumers use), the score of the
/// Uhrig baseline it started from, and the score it achieved.
pub struct OptimizeOutcome {
    pub times: Vec<i64>,
    pub seq: Vec<u64>,
    pub baseline_score: i64,
    pub score: i64,
}

/// The evaluator configuration the robust variant derives from an
/// optional resonance frequency.
pub open spec fn robust_cfg(moment_order: u64, tls_freq: Option<i64>) -> EvalConfig {
    match tls_freq {
        Some(omega) => (EvalConfig {
            moment_order,
            notch_omega: omega,
            notch_weight: NOTCH_WEIGHT_FP,
        }),
        None => (EvalConfig { moment_order, notch_omega: 0, notch_weight: 0 }),
    }
}

/// Normalized times in the unit interval scale to indices that never
/// exceed the duration.
pub proof fn lemma_sto_idx_bounds(times: Seq<i64>, steps: u64)
    requires
        steps <= 0x400000,
        forall|k: int| 0 <= k < times.len() ==> 0 <= #[trigger] times[k] <= FP_ONE,
    ensures
        sto_idx(times, steps).len() == times.len(),
        forall|k: int| 0 <= k < times.len() ==> (#[trigger] sto_idx(times, steps)[k]) <= steps,
{
    assert forall|k: int|
        0 <= k < times.len() implies (#[trigger] sto_idx(times, steps)[k]) <= steps by {
        let t = times[k] as int;
        let sp = sclamp(steps as int * (FP_ONE as int));
        assert(sp == steps as int * (FP_ONE as int));
        crate::fp::lemma_smul_nonneg(t, sp);
        crate::fp::lemma_smul_bound(t, sp, FP_ONE as int, sp);
        assert((FP_ONE as int) * sp == sp * (FP_ONE as int)) by (nonlinear_arith);
        assert(sp * (FP_ONE as int) / (FP_ONE as int) == sp) by {
            vstd::arithmetic::div_mod::lemma_div_by_multiple(sp, FP_ONE as int);
        }
        let m = smul(t, sp);
        assert(0 <= m <= sp);
        assert(m / (FP_ONE as int) <= sp / (FP_ONE as int)) by {
            vstd::arithmetic::div_mod::lemma_div_is_ordered(m, sp, FP_ONE as int);
        }
        assert(sp / (FP_ONE as int) == steps) by {
            assert(sp == (FP_ONE as int) * (steps as int)) by (nonlinear_arith)
                requires
                    sp == steps as int * (FP_ONE as int),
            ;
            vstd::arithmetic::div_mod::lemma_div_multiples_vanish(steps as int, FP_ONE as int);
        }
        assert(m / (FP_ONE as int) >= 0) by {
            vstd::arithmetic::div_mod::lemma_div_pos_is_pos(m, FP_ONE as int);
        }
    }
}

/// The analytic coordinate-descent optimizer. `beta` is the smoothing
/// weight of the underlying analytic model; it tunes the search only and
/// shapes no contract.
pub struct SfeOptimizer {
    pub beta: i64,
}

/// Normalized times as discrete indices.
pub(crate) fn to_indices(times: &Vec<i64>, steps: u64) -> (r: Vec<u64>)
    requires
        steps <= 0x400000,
        forall|k: int| 0 <= k < times@.len() ==> 0 <= #[trigger] times@[k],
    ensures
        r@ == sto_idx(times@, steps),
{
    let sfp = fp_from_int(steps as i64);
    let mut out: Vec<u64> = Vec::new();
    let mut j: usize = 0;
    while j < times.len()
        invariant
            j <= times@.len(),
            sfp == sclamp(steps as int * (FP_ONE as int)),
            forall|k: int| 0 <= k < times@.len() ==> 0 <= #[trigger] times@[k],
            out@.len() == j,
            forall|k: int| 0 <= k < j ==> out@[k] == sto_idx(times@, steps)[k],
        decreases times@.len() - j,
    {
        proof {
            crate::fp::lemma_smul_nonneg(times@[j as int] as int, sfp as int);
        }
        let scaled = fmul(times[j], sfp);
        let idx: u64 = (scaled as u64) / (FP_ONE as u64);
        out.push(idx);
        j = j + 1;
    }
    proof {
        assert(out@ =~= sto_idx(times@, steps));
    }
    out
}

/// Some time in the sequence honours the minimum first-pulse fraction.
pub open spec fn meets_min_first(times: Seq<i64>) -> bool {
    exists|k: int| 0 <= k < times.len() && #[trigger] times[k] >= MIN_FIRST_PULSE_FP
}

/// Raise the single lowest time to the minimum first-pulse fraction when
/// it falls short; the rest stay.
fn raise_min(times: &mut Vec<i64>)
    requires
        forall|k: int| 0 <= k < old(times)@.len() ==> 0 <= #[trigger] old(times)@[k] <= FP_ONE,
    ensures
        final(times)@.len() == old(times)@.len(),
        forall|k: int| 0 <= k < final(times)@.len() ==> 0 <= #[trigger] final(times)@[k] <= FP_ONE,
        old(times)@.len() > 0 ==> meets_min_first(final(times)@),
{
    if times.len() == 0 {
        return ;
    }
    let mut kmin: usize = 0;
    let mut m: usize = 1;
    while m < times.len()
        invariant
            times@.len() > 0,
            kmin < m <= times@.len(),
            times@ == old(times)@,
            forall|q: int| 0 <= q < m ==> times@[kmin as int] <= #[trigger] times@[q],
        decreases times@.len() - m,
    {
        if times[m] < times[kmin] {
            kmin = m;
        }
        m = m + 1;
    }
    if times[kmin] < MIN_FIRST_PULSE_FP {
        times[kmin] = MIN_FIRST_PULSE_FP;
    }
    proof {
        assert(times@[kmin as int] >= MIN_FIRST_PULSE_FP);
        assert(exists|k: int|
            0 <= k < times@.len() && #[trigger] times@[k] >= MIN_FIRST_PULSE_FP) by {
            assert(0 <= (kmin as int) < times@.len() && times@[kmin as int]
                >= MIN_FIRST_PULSE_FP);
        }
    }
}

impl SfeOptimizer {
    pub fn new(beta: i64) -> (r: Self)
        ensures
            r.beta == beta,
    {
        SfeOptimizer { beta }
    }

    /// Greedy coordinate descent from the Uhrig baseline.
    ///
    /// The achieved score is exactly the evaluator's score of the returned
    /// times, and it never falls below the baseline's own score: the
    /// descent only ever accepts strictly improving moves.
    pub fn optimize(
        &self,
        steps: u64,
        n_pulses: u64,
        noise_level: i64,
        noise_pool: &Vec<Vec<i64>>,
        cfg: &EvalConfig,
    ) -> (r: OptimizeOutcome)
        requires
            n_pulses <= 0x100000,
            steps <= 0x400000,
            noise_pool@.len() > 0 ==> 2 <= noise_pool@[0]@.len() <= 0x400000,
            noise_pool@.len() > 0 ==> steps == noise_pool@[0]@.len(),
            forall|i: int|
                0 <= i < noise_pool@.len() ==> (#[trigger] noise_pool@[i]@.len())
                    == noise_pool@[0]@.len(),
        ensures
            r.times@.len() == n_pulses,
            forall|k: int| 0 <= k < r.times@.len() ==> 0 <= #[trigger] r.times@[k] <= FP_ONE,
            r.baseline_score == snormscore(
                noise_pool@,
                sto_idx(suhrig_times(n_pulses as int), steps),
                noise_level as int,
                *cfg,
            ),
            r.score == snormscore(noise_pool@, sto_idx(r.times@, steps), noise_level as int, *cfg),
            r.score >= r.baseline_score,
            r.seq@ == norm_spec(sto_idx(r.times@, steps), steps),
            strictly_increasing(r.seq@),
            in_range(r.seq@, steps),
            r.score == snormscore(noise_pool@, r.seq@, noise_level as int, *cfg),
    {
        let uh = uhrig_norm(n_pulses);
        proof {
            assert forall|k: int| 0 <= k < uh@.len() implies 0 <= #[trigger] uh@[k] <= FP_ONE by {
                lemma_suhrig_range(n_pulses as int, k);
            }
            assert(uh@ =~= suhrig_times(n_pulses as int));
        }
        let uh_idx = to_indices(&uh, steps);
        let baseline = evaluate_sequence_with_pool(&uh_idx, noise_level, noise_pool, cfg);
        let mut best = uh;
        let mut best_score = baseline;
        let mut step: i64 = DESCENT_STEP_FP;
        proof {
            crate::fp::lemma_sclamp_bounded(
                sscore(
                    noise_pool@,
                    norm_spec(uh_idx@, if noise_pool@.len() == 0 {
                        0
                    } else {
                        noise_pool@[0]@.len() as u64
                    }),
                    noise_level as int,
                    *cfg,
                ),
            );
        }
        while step > DESCENT_MIN_STEP_FP
            invariant
                n_pulses <= 0x100000,
                steps <= 0x400000,
                noise_pool@.len() > 0 ==> 2 <= noise_pool@[0]@.len() <= 0x400000,
                noise_pool@.len() > 0 ==> steps == noise_pool@[0]@.len(),
                forall|i: int|
                    0 <= i < noise_pool@.len() ==> (#[trigger] noise_pool@[i]@.len())
                        == noise_pool@[0]@.len(),
                best@.len() == n_pulses,
                forall|k: int| 0 <= k < best@.len() ==> 0 <= #[trigger] best@[k] <= FP_ONE,
                best_score == snormscore(
                    noise_pool@,
                    sto_idx(best@, steps),
                    noise_level as int,
                    *cfg,
                ),
                best_score >= baseline,
                best_score <= FP_MAX,
                step >= 0,
            decreases step, FP_MAX - best_score,
        {
            let ghost sweep_start = best_score;
            let mut improved = false;
            let mut i: usize = 0;
            while i < best.len()
                invariant
                    n_pulses <= 0x100000,
                    steps <= 0x400000,
                    noise_pool@.len() > 0 ==> 2 <= noise_pool@[0]@.len() <= 0x400000,
                    noise_pool@.len() > 0 ==> steps == noise_pool@[0]@.len(),
                    forall|ii: int|
                        0 <= ii < noise_pool@.len() ==> (#[trigger] noise_pool@[ii]@.len())
                            == noise_pool@[0]@.len(),
                    i <= best@.len(),
                    best@.len() == n_pulses,
                    forall|k: int| 0 <= k < best@.len() ==> 0 <= #[trigger] best@[k] <= FP_ONE,
                    best_score == snormscore(
                        noise_pool@,
                        sto_idx(best@, steps),
                        noise_level as int,
                        *cfg,
                    ),
                    best_score >= baseline,
                    best_score >= sweep_start,
                    best_score <= FP_MAX,
                    improved ==> best_score > sweep_start,
                decreases best@.len() - i,
            {
                let down = fsub(best[i], step);
                let mut accepted = false;
                if down > 0 && down < FP_ONE {
                    let mut cand = best.clone();
                    cand[i] = down;
                    let cidx = to_indices(&cand, steps);
                    let sc = evaluate_sequence_with_pool(&cidx, noise_level, noise_pool, cfg);
                    if sc > best_score {
                        proof {
                            crate::fp::lemma_sclamp_bounded(
                                snormscore(
                                    noise_pool@,
                                    sto_idx(cand@, steps),
                                    noise_level as int,
                                    *cfg,
                                ),
                            );
                        }
                        best = cand;
                        best_score = sc;
                        improved = true;
                        accepted = true;
                    }
                }
                if !accepted {
                    let up = fadd(best[i], step);
                    if up > 0 && up < FP_ONE {
                        let mut cand = best.clone();
                        cand[i] = up;
                        let cidx = to_indices(&cand, steps);
                        let sc = evaluate_sequence_with_pool(&cidx, noise_level, noise_pool, cfg);
                        if sc > best_score {
                            proof {
                                crate::fp::lemma_sclamp_bounded(
                                    snormscore(
                                        noise_pool@,
                                        sto_idx(cand@, steps),
                                        noise_level as int,
                                        *cfg,
                                    ),
                                );
                            }
                            best = cand;
                            best_score = sc;
                            improved = true;
                        }
                    }
                }
                i = i + 1;
            }
            if !improved {
                step = step / 2;
            }
        }
        proof {
            assert forall|k: int| 0 <= k < best@.len() implies 0 <= #[trigger] best@[k] by {
            }
        }
        let idx = to_indices(&best, steps);
        let seq = normalize_pulses(&idx, steps);
        proof {
            lemma_norm_spec_idempotent(seq@, steps);
        }
        OptimizeOutcome { times: best, seq, baseline_score: baseline, score: best_score }
    }

    /// Robust variant: an optional resonance frequency switches the notch
    /// penalty on explicitly, and the earliest pulse is clamped up to the
    /// minimum first-pulse fraction (the single lowest time is raised; the
    /// rest stay). The clamped sequence is re-scored, so the achieved
    /// score is exactly the evaluator's score of the returned times — the
    /// clamp trades score for hardware robustness, so no non-regression is
    /// promised here (that guarantee belongs to the unconstrained
    /// descent).
    #[verifier::rlimit(100)]
    pub fn optimize_for_spec(
        &self,
        steps: u64,
        n_pulses: u64,
        noise_level: i64,
        noise_pool: &Vec<Vec<i64>>,
        moment_order: u64,
        tls_freq: Option<i64>,
    ) -> (r: OptimizeOutcome)
        requires
            n_pulses <= 0x100000,
            steps <= 0x400000,
            noise_pool@.len() > 0 ==> 2 <= noise_pool@[0]@.len() <= 0x400000,
            noise_pool@.len() > 0 ==> steps == noise_pool@[0]@.len(),
            forall|i: int|
                0 <= i < noise_pool@.len() ==> (#[trigger] noise_pool@[i]@.len())
                    == noise_pool@[0]@.len(),
        ensures
            r.times@.len() == n_pulses,
            forall|k: int| 0 <= k < r.times@.len() ==> 0 <= #[trigger] r.times@[k] <= FP_ONE,
            n_pulses > 0 ==> meets_min_first(r.times@),
            r.baseline_score == snormscore(
                noise_pool@,
                sto_idx(suhrig_times(n_pulses as int), steps),
                noise_level as int,
                robust_cfg(moment_order, tls_freq),
            ),
            r.score == snormscore(
                noise_pool@,
                sto_idx(r.times@, steps),
                noise_level as int,
                robust_cfg(moment_order, tls_freq),
            ),
            r.seq@ == norm_spec(sto_idx(r.times@, steps), steps),
            strictly_increasing(r.seq@),
            in_range(r.seq@, steps),
    {
        let cfg = match tls_freq {
            Some(omega) => EvalConfig {
                moment_order,
                notch_omega: omega,
                notch_weight: NOTCH_WEIGHT_FP,
            },
            None => EvalConfig { moment_order, notch_omega: 0, notch_weight: 0 },
        };
        proof {
            assert(cfg == robust_cfg(moment_order, tls_freq));
        }
        let out = self.optimize(steps, n_pulses, noise_level, noise_pool, &cfg);
        let mut times = out.times;
        raise_min(&mut times);
        let idx = to_indices(&times, steps);
        let score = evaluate_sequence_with_pool(&idx, noise_level, noise_pool, &cfg);
        let seq = normalize_pulses(&idx, steps);
        proof {
            lemma_norm_spec_idempotent(seq@, steps);
        }
        OptimizeOutcome { times, seq, baseline_score: out.baseline_score, score }
    }
}

/// The optimizer entry point: synthesize a pool of noise traces, run the
/// analytic descent from the Uhrig baseline against it, and report the
/// chosen sequence as time indices together with the baseline (Uhrig) and
/// achieved scores. The achieved score never falls below the baseline
/// score. Success is owed exactly when the duration and pool size are
/// within the supported ranges.
pub fn run_pulse_optimizer(
    steps: u64,
    n_pulses: u64,
    noise_level: i64,
    alpha: i64,
    scale: i64,
    pool_trials: u64,
    cfg: &EvalConfig,
    rng: &mut SfeRng,
) -> (r: Result<(Vec<u64>, i64, i64), SfeError>)
    requires
        n_pulses <= 0x100000,
    ensures
        r is Ok <==> (2 <= steps <= crate::noise::MAX_STEPS && pool_trials <= 10000),
        r matches Ok(out) ==> out.1 <= out.2,
        r matches Ok(out) ==> out.0@.len() == n_pulses && forall|k: int|
            0 <= k < out.0@.len() ==> (#[trigger] out.0@[k]) <= steps,
{
    if pool_trials > 10000 {
        return Err(SfeError::InvalidArgument);
    }
    let gen = crate::noise::PinkNoiseGenerator::new_with_params(steps, alpha, scale)?;
    let mut pool: Vec<Vec<i64>> = Vec::new();
    let mut i: u64 = 0;
    while i < pool_trials
        invariant
            i <= pool_trials,
            pool@.len() == i,
            gen.wf(),
            gen.steps == steps,
            forall|k: int| 0 <= k < pool@.len() ==> (#[trigger] pool@[k]@.len()) == steps,
        decreases pool_trials - i,
    {
        let tr = gen.generate_new(rng);
        pool.push(tr);
        i = i + 1;
    }
    let optimizer = SfeOptimizer::new(DESCENT_BETA_FP);
    let out = optimizer.optimize(steps, n_pulses, noise_level, &pool, cfg);
    proof {
        assert forall|k: int| 0 <= k < out.times@.len() implies 0 <= #[trigger] out.times@[k] by {
        }
    }
    proof {
        lemma_sto_idx_bounds(out.times@, steps);
    }
    let idx = to_indices(&out.times, steps);
    Ok((idx, out.baseline_score, out.score))
}

} // verus!
