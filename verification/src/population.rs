//! The island-model population search: the second optimizer strategy.
//!
//! Several sub-populations ("islands") of candidate pulse sequences evolve
//! semi-independently: each island is seeded with the closed-form Uhrig
//! baseline, a "smart seed" built from the steepest noise gradients of one
//! sampled trace, and mutated baseline variants; each generation keeps an
//! elite, breeds offspring by tournament selection and single-point
//! crossover over sorted index vectors with a linearly decaying mutation,
//! and repairs every offspring back to a valid sequence; every few
//! generations the best individual of an island replaces the worst of its
//! neighbour. A final hill-climbing polish perturbs single pulses.
//!
//! The population's evolution is a heuristic and is not pinned down; what
//! is pinned down is the outcome: the reported score is exactly the
//! evaluator's score of the returned sequence, and it never falls below
//! the Uhrig baseline's score, which is tracked as the incumbent from the
//! first evaluation on and only ever replaced by strictly better
//! candidates.

use vstd::prelude::*;
use crate::fp::{FP_MAX, fsub, fp_abs};
use crate::pulse::{uhrig_norm, normalize_pulses, strictly_increasing, in_range,
    lemma_suhrig_range, lemma_norm_spec_idempotent};
use crate::eval::{EvalConfig, evaluate_sequence_with_pool};
use crate::optimizer::{sto_idx, suhrig_times, snormscore, to_indices};
use crate::rng::SfeRng;

verus! {

/// The outcome of one population-search run: the chosen sequence as a
/// normalized pulse-index sequence (sorted, duplicate-free, strictly
/// inside the duration), the Uhrig baseline's score, and the achieved
/// score.
pub struct SearchOutcome {
    pub seq: Vec<u64>,
    pub baseline_score: i64,
    pub score: i64,
}

/// The island-model search parameters: island count, individuals per
/// island, elite count kept unchanged each generation, the migration
/// period, and the budget of the final polish.
pub struct PopulationSearch {
    pub islands: u64,
    pub population: u64,
    pub elite: u64,
    pub migration_interval: u64,
    pub polish_budget: u64,
}

/// An exact copy of an index vector.
fn copy_vec(v: &Vec<u64>) -> (r: Vec<u64>)
    ensures
        r@ == v@,
{
    let mut out: Vec<u64> = Vec::new();
    let mut k: usize = 0;
    while k < v.len()
        invariant
            k <= v@.len(),
            out@.len() == k,
            forall|i: int| 0 <= i < k ==> out@[i] == v@[i],
        decreases v@.len() - k,
    {
        out.push(v[k]);
        k = k + 1;
    }
    proof {
        assert(out@ =~= v@);
    }
    out
}

/// A draw below `n`.
fn rand_below(rng: &mut SfeRng, n: u64) -> (r: u64)
    requires
        n >= 1,
    ensures
        r < n,
{
    rng.next_raw() % n
}

/// A mutated copy: each index is shifted, with the given percent chance,
/// by up to `shift` steps either way, clamped into `(0, steps)`.
fn mutate(ind: &Vec<u64>, rate_pct: u64, shift: u64, steps: u64, rng: &mut SfeRng) -> (r: Vec<u64>)
    requires
        2 <= steps,
    ensures
        r@.len() == ind@.len(),
{
    let width = 2 * (shift % 1000) + 1;
    let mut out: Vec<u64> = Vec::new();
    let mut k: usize = 0;
    while k < ind.len()
        invariant
            k <= ind@.len(),
            out@.len() == k,
            width == 2 * (shift % 1000) + 1,
            2 <= steps,
        decreases ind@.len() - k,
    {
        let g = ind[k];
        let v: u64 = if rand_below(rng, 100) < rate_pct {
            let delta = rand_below(rng, width);
            let moved: i128 = g as i128 + delta as i128 - (shift % 1000) as i128;
            if moved < 1 {
                1
            } else if moved > (steps - 1) as i128 {
                steps - 1
            } else {
                moved as u64
            }
        } else {
            g
        };
        out.push(v);
        k = k + 1;
    }
    out
}

/// Single-point crossover over two sorted index vectors.
fn crossover(p1: &Vec<u64>, p2: &Vec<u64>, rng: &mut SfeRng) -> (r: Vec<u64>)
    requires
        p1@.len() <= 0x400000,
{
    let cut = rand_below(rng, p1.len() as u64 + 1) as usize;
    let mut child: Vec<u64> = Vec::new();
    let mut k: usize = 0;
    while k < cut && k < p1.len()
        invariant
            k <= p1@.len(),
        decreases p1@.len() - k,
    {
        child.push(p1[k]);
        k = k + 1;
    }
    let mut m: usize = cut;
    while m < p2.len()
        invariant
            m <= p2@.len() || m == cut,
        decreases p2@.len() - m,
    {
        child.push(p2[m]);
        m = m + 1;
    }
    child
}

/// The smart seed: pulses at the steps where one sampled trace changes
/// fastest (the largest local gradient magnitudes), one pulse per step.
fn smart_seed(trace: &Vec<i64>, n_pulses: u64, steps: u64) -> (r: Vec<u64>)
    requires
        trace@.len() == steps,
        2 <= steps <= 0x400000,
{
    let mut used: Vec<bool> = Vec::new();
    let mut t: u64 = 0;
    while t < steps
        invariant
            t <= steps,
            used@.len() == t,
        decreases steps - t,
    {
        used.push(false);
        t = t + 1;
    }
    let mut picks: Vec<u64> = Vec::new();
    let want = if n_pulses < steps - 1 {
        n_pulses
    } else {
        steps - 1
    };
    let mut p: u64 = 0;
    while p < want
        invariant
            p <= want,
            used@.len() == steps,
            trace@.len() == steps,
            2 <= steps,
        decreases want - p,
    {
        let mut best_t: u64 = 0;
        let mut best_g: u64 = 0;
        let mut found = false;
        let mut u: u64 = 0;
        while u < steps - 1
            invariant
                u <= steps - 1,
                used@.len() == steps,
                trace@.len() == steps,
                2 <= steps,
                best_t < steps,
            decreases steps - 1 - u,
        {
            if !used[u as usize] {
                let g = fp_abs(fsub(trace[(u + 1) as usize], trace[u as usize]));
                if !found || g > best_g {
                    best_t = u;
                    best_g = g;
                    found = true;
                }
            }
            u = u + 1;
        }
        if !found {
            p = want;
        } else {
            used[best_t as usize] = true;
            picks.push(best_t);
            p = p + 1;
        }
    }
    picks
}

impl PopulationSearch {
    /// The customary island layout: four islands of ten, two elites, a
    /// migration every five generations, and forty polish attempts.
    pub fn new() -> (r: Self)
        ensures
            r.islands == 4 && r.population == 10 && r.elite == 2 && r.migration_interval == 5
                && r.polish_budget == 40,
    {
        PopulationSearch {
            islands: 4,
            population: 10,
            elite: 2,
            migration_interval: 5,
            polish_budget: 40,
        }
    }

    /// Run the island-model search. The reported score is exactly the
    /// evaluator's score of the returned sequence, and never below the
    /// Uhrig baseline's score.
    #[verifier::rlimit(100)]
    pub fn optimize(
        &self,
        steps: u64,
        n_pulses: u64,
        noise_level: i64,
        generations: u64,
        noise_pool: &Vec<Vec<i64>>,
        cfg: &EvalConfig,
        rng: &mut SfeRng,
    ) -> (r: SearchOutcome)
        requires
            n_pulses <= 0x100000,
            2 <= steps <= 0x400000,
            generations <= 10000,
            noise_pool@.len() > 0 ==> 2 <= noise_pool@[0]@.len() <= 0x400000,
            noise_pool@.len() > 0 ==> steps == noise_pool@[0]@.len(),
            forall|i: int|
                0 <= i < noise_pool@.len() ==> (#[trigger] noise_pool@[i]@.len())
                    == noise_pool@[0]@.len(),
        ensures
            r.baseline_score == snormscore(
                noise_pool@,
                sto_idx(suhrig_times(n_pulses as int), steps),
                noise_level as int,
                *cfg,
            ),
            r.score == snormscore(noise_pool@, r.seq@, noise_level as int, *cfg),
            r.score >= r.baseline_score,
            strictly_increasing(r.seq@),
            in_range(r.seq@, steps),
    {
        let k_islands: u64 = if self.islands < 1 {
            1
        } else if self.islands > 8 {
            8
        } else {
            self.islands
        };
        let pop: u64 = if self.population < 2 {
            2
        } else if self.population > 64 {
            64
        } else {
            self.population
        };
        let elite: u64 = if self.elite < pop {
            self.elite
        } else {
            pop - 1
        };
        let migr: u64 = if self.migration_interval < 1 {
            1
        } else {
            self.migration_interval
        };
        let uh = uhrig_norm(n_pulses);
        proof {
            assert forall|k: int| 0 <= k < uh@.len() implies 0 <= #[trigger] uh@[k] by {
                lemma_suhrig_range(n_pulses as int, k);
            }
            assert(uh@ =~= suhrig_times(n_pulses as int));
        }
        let base_idx = to_indices(&uh, steps);
        let baseline = evaluate_sequence_with_pool(&base_idx, noise_level, noise_pool, cfg);
        let mut best_seq = copy_vec(&base_idx);
        let mut best_score = baseline;
        proof {
            crate::fp::lemma_sclamp_bounded(
                snormscore(noise_pool@, base_idx@, noise_level as int, *cfg),
            );
        }
        proof {
            assert(k_islands * pop <= 8 * 64) by (nonlinear_arith)
                requires
                    k_islands <= 8,
                    pop <= 64,
            ;
        }
        let total = (k_islands * pop) as usize;
        let mut inds: Vec<Vec<u64>> = Vec::new();
        let mut scores: Vec<i64> = Vec::new();
        let mut s: usize = 0;
        while s < total
            invariant
                s <= total,
                inds@.len() == s,
                scores@.len() == s,
                total == k_islands * pop,
                1 <= k_islands <= 8,
                2 <= pop <= 64,
                2 <= steps <= 0x400000,
                n_pulses <= 0x100000,
                noise_pool@.len() > 0 ==> 2 <= noise_pool@[0]@.len() <= 0x400000,
                noise_pool@.len() > 0 ==> steps == noise_pool@[0]@.len(),
                forall|i: int|
                    0 <= i < noise_pool@.len() ==> (#[trigger] noise_pool@[i]@.len())
                        == noise_pool@[0]@.len(),
                best_score == snormscore(noise_pool@, best_seq@, noise_level as int, *cfg),
                best_score >= baseline,
                best_score <= FP_MAX,
                forall|i: int|
                    0 <= i < scores@.len() ==> (#[trigger] scores@[i]) == snormscore(
                        noise_pool@,
                        inds@[i]@,
                        noise_level as int,
                        *cfg,
                    ),
                forall|i: int| 0 <= i < inds@.len() ==> (#[trigger] inds@[i]@.len()) <= 0x400000,
            decreases total - s,
        {
            let ind: Vec<u64> = if s % (pop as usize) == 0 {
                copy_vec(&base_idx)
            } else if s % (pop as usize) == 1 && noise_pool.len() > 0 {
                smart_seed(&noise_pool[0], n_pulses, steps)
            } else {
                mutate(&base_idx, 60, 25, steps, rng)
            };
            let repaired = normalize_pulses(&ind, steps);
            proof {
                crate::pulse::lemma_pulse_len_bound(repaired@, steps);
            }
            let sc = evaluate_sequence_with_pool(&repaired, noise_level, noise_pool, cfg);
            if sc > best_score {
                proof {
                    crate::fp::lemma_sclamp_bounded(
                        snormscore(noise_pool@, repaired@, noise_level as int, *cfg),
                    );
                }
                best_seq = copy_vec(&repaired);
                best_score = sc;
            }
            inds.push(repaired);
            scores.push(sc);
            s = s + 1;
        }
        let mut g: u64 = 0;
        while g < generations
            invariant
                g <= generations,
                generations <= 10000,
                inds@.len() == total,
                scores@.len() == total,
                total == k_islands * pop,
                1 <= k_islands <= 8,
                2 <= pop <= 64,
                elite < pop,
                migr >= 1,
                2 <= steps <= 0x400000,
                n_pulses <= 0x100000,
                noise_pool@.len() > 0 ==> 2 <= noise_pool@[0]@.len() <= 0x400000,
                noise_pool@.len() > 0 ==> steps == noise_pool@[0]@.len(),
                forall|i: int|
                    0 <= i < noise_pool@.len() ==> (#[trigger] noise_pool@[i]@.len())
                        == noise_pool@[0]@.len(),
                best_score == snormscore(noise_pool@, best_seq@, noise_level as int, *cfg),
                best_score >= baseline,
                best_score <= FP_MAX,
                forall|i: int|
                    0 <= i < scores@.len() ==> (#[trigger] scores@[i]) == snormscore(
                        noise_pool@,
                        inds@[i]@,
                        noise_level as int,
                        *cfg,
                    ),
                forall|i: int| 0 <= i < inds@.len() ==> (#[trigger] inds@[i]@.len()) <= 0x400000,
            decreases generations - g,
        {
            // adaptive mutation: rate and shift both decay linearly
            let rate: u64 = 20 + (40 * (generations - g)) / generations;
            let shift: u64 = 2 + (23 * (generations - g)) / generations;
            let mut isl: u64 = 0;
            while isl < k_islands
                invariant
                    isl <= k_islands,
                    inds@.len() == total,
                    scores@.len() == total,
                    total == k_islands * pop,
                    1 <= k_islands <= 8,
                    2 <= pop <= 64,
                    elite < pop,
                    2 <= steps <= 0x400000,
                    n_pulses <= 0x100000,
                    noise_pool@.len() > 0 ==> 2 <= noise_pool@[0]@.len() <= 0x400000,
                    noise_pool@.len() > 0 ==> steps == noise_pool@[0]@.len(),
                    forall|i: int|
                        0 <= i < noise_pool@.len() ==> (#[trigger] noise_pool@[i]@.len())
                            == noise_pool@[0]@.len(),
                    best_score == snormscore(noise_pool@, best_seq@, noise_level as int, *cfg),
                    best_score >= baseline,
                    best_score <= FP_MAX,
                    forall|i: int|
                        0 <= i < scores@.len() ==> (#[trigger] scores@[i]) == snormscore(
                            noise_pool@,
                            inds@[i]@,
                            noise_level as int,
                            *cfg,
                        ),
                    forall|i: int|
                        0 <= i < inds@.len() ==> (#[trigger] inds@[i]@.len()) <= 0x400000,
                decreases k_islands - isl,
            {
                proof {
                    assert(isl * pop <= 8 * 64) by (nonlinear_arith)
                        requires
                            isl <= 8,
                            pop <= 64,
                    ;
                }
                let base = (isl * pop) as usize;
                proof {
                    assert((isl + 1) * pop <= k_islands * pop) by (nonlinear_arith)
                        requires
                            isl + 1 <= k_islands,
                            pop >= 1,
                    ;
                    assert((isl + 1) * pop == isl * pop + pop) by (nonlinear_arith);
                }
                // sort the island by score, best first (selection sort)
                let mut a: usize = 0;
                while a < pop as usize
                    invariant
                        a <= pop,
                        inds@.len() == total,
                        scores@.len() == total,
                        base + pop <= total,
                        2 <= pop <= 64,
                        forall|i: int|
                            0 <= i < scores@.len() ==> (#[trigger] scores@[i]) == snormscore(
                                noise_pool@,
                                inds@[i]@,
                                noise_level as int,
                                *cfg,
                            ),
                        forall|i: int|
                            0 <= i < inds@.len() ==> (#[trigger] inds@[i]@.len()) <= 0x400000,
                    decreases pop - a,
                {
                    let mut m: usize = a;
                    let mut b: usize = a + 1;
                    while b < pop as usize
                        invariant
                            a <= m < b <= pop,
                            inds@.len() == total,
                            scores@.len() == total,
                            base + pop <= total,
                        decreases pop - b,
                    {
                        if scores[base + b] > scores[base + m] {
                            m = b;
                        }
                        b = b + 1;
                    }
                    if m != a {
                        let ghost pre_scores = scores@;
                        let ghost pre_inds = inds@;
                        let sa = scores[base + a];
                        let sm = scores[base + m];
                        scores[base + a] = sm;
                        scores[base + m] = sa;
                        let ia = copy_vec(&inds[base + a]);
                        let im = copy_vec(&inds[base + m]);
                        inds[base + a] = im;
                        inds[base + m] = ia;
                        proof {
                            assert forall|i: int|
                                0 <= i < scores@.len() implies (#[trigger] scores@[i])
                                == snormscore(
                                noise_pool@,
                                inds@[i]@,
                                noise_level as int,
                                *cfg,
                            ) && inds@[i]@.len() <= 0x400000 by {
                                if i == base + a {
                                    assert(inds@[i]@ == pre_inds[base + m as int]@);
                                } else if i == base + m {
                                    assert(inds@[i]@ == pre_inds[base + a as int]@);
                                } else {
                                    assert(inds@[i] == pre_inds[i]);
                                    assert(scores@[i] == pre_scores[i]);
                                }
                            }
                        }
                    }
                    a = a + 1;
                }
                // offspring replace everything beyond the elite
                let mut slot: u64 = elite;
                while slot < pop
                    invariant
                        elite <= slot <= pop,
                        inds@.len() == total,
                        scores@.len() == total,
                        base + pop <= total,
                        2 <= pop <= 64,
                        2 <= steps <= 0x400000,
                        noise_pool@.len() > 0 ==> 2 <= noise_pool@[0]@.len() <= 0x400000,
                        noise_pool@.len() > 0 ==> steps == noise_pool@[0]@.len(),
                        forall|i: int|
                            0 <= i < noise_pool@.len() ==> (#[trigger] noise_pool@[i]@.len())
                                == noise_pool@[0]@.len(),
                        best_score == snormscore(noise_pool@, best_seq@, noise_level as int, *cfg),
                        best_score >= baseline,
                        best_score <= FP_MAX,
                        forall|i: int|
                            0 <= i < scores@.len() ==> (#[trigger] scores@[i]) == snormscore(
                                noise_pool@,
                                inds@[i]@,
                                noise_level as int,
                                *cfg,
                            ),
                        forall|i: int|
                            0 <= i < inds@.len() ==> (#[trigger] inds@[i]@.len()) <= 0x400000,
                    decreases pop - slot,
                {
                    // tournament selection: of two contenders, the better
                    let c1 = rand_below(rng, pop) as usize;
                    let c2 = rand_below(rng, pop) as usize;
                    let p1 = if scores[base + c1] >= scores[base + c2] {
                        base + c1
                    } else {
                        base + c2
                    };
                    let c3 = rand_below(rng, pop) as usize;
                    let c4 = rand_below(rng, pop) as usize;
                    let p2 = if scores[base + c3] >= scores[base + c4] {
                        base + c3
                    } else {
                        base + c4
                    };
                    proof {
                        assert(inds@[p1 as int]@.len() <= 0x400000);
                    }
                    let child = crossover(&inds[p1], &inds[p2], rng);
                    let mutated = mutate(&child, rate, shift, steps, rng);
                    let repaired = normalize_pulses(&mutated, steps);
                    proof {
                        crate::pulse::lemma_pulse_len_bound(repaired@, steps);
                    }
                    let sc = evaluate_sequence_with_pool(&repaired, noise_level, noise_pool, cfg);
                    if sc > best_score {
                        proof {
                            crate::fp::lemma_sclamp_bounded(
                                snormscore(noise_pool@, repaired@, noise_level as int, *cfg),
                            );
                        }
                        best_seq = copy_vec(&repaired);
                        best_score = sc;
                    }
                    scores[base + slot as usize] = sc;
                    inds[base + slot as usize] = repaired;
                    slot = slot + 1;
                }
                isl = isl + 1;
            }
            // migration: the best of each island replaces the worst of the
            // next, after all islands finished this generation
            if (g + 1) % migr == 0 && k_islands > 1 {
                let mut i2: u64 = 0;
                while i2 < k_islands
                    invariant
                        i2 <= k_islands,
                        inds@.len() == total,
                        scores@.len() == total,
                        total == k_islands * pop,
                        1 <= k_islands <= 8,
                        2 <= pop <= 64,
                        forall|i: int|
                            0 <= i < scores@.len() ==> (#[trigger] scores@[i]) == snormscore(
                                noise_pool@,
                                inds@[i]@,
                                noise_level as int,
                                *cfg,
                            ),
                        forall|i: int|
                            0 <= i < inds@.len() ==> (#[trigger] inds@[i]@.len()) <= 0x400000,
                    decreases k_islands - i2,
                {
                    proof {
                        let di = ((i2 + 1) as int) % (k_islands as int);
                        assert(0 <= di < k_islands as int) by {
                            vstd::arithmetic::div_mod::lemma_mod_bound(
                                (i2 + 1) as int,
                                k_islands as int,
                            );
                        }
                        assert((i2 as int) * (pop as int) + pop as int <= (k_islands as int) * (
                        pop as int) && di * (pop as int) + pop as int <= (k_islands as int) * (
                        pop as int) && di * (pop as int) <= 8 * 64 && (i2 as int) * (pop as int)
                            <= 8 * 64) by (nonlinear_arith)
                            requires
                                0 <= (i2 as int) < (k_islands as int) <= 8,
                                0 <= di < (k_islands as int),
                                1 <= (pop as int) <= 64,
                        ;
                    }
                    let src = (i2 * pop) as usize;
                    let dst = (((i2 + 1) % k_islands) * pop) as usize;
                    // locate the best of the source and the worst of the
                    // destination island
                    let mut bi: usize = 0;
                    let mut wi: usize = 0;
                    let mut t: usize = 1;
                    while t < pop as usize
                        invariant
                            t <= pop,
                            bi < pop,
                            wi < pop,
                            inds@.len() == total,
                            scores@.len() == total,
                            src + pop <= total,
                            dst + pop <= total,
                        decreases pop - t,
                    {
                        if scores[src + t] > scores[src + bi] {
                            bi = t;
                        }
                        if scores[dst + t] < scores[dst + wi] {
                            wi = t;
                        }
                        t = t + 1;
                    }
                    let moved = copy_vec(&inds[src + bi]);
                    let moved_score = scores[src + bi];
                    inds[dst + wi] = moved;
                    scores[dst + wi] = moved_score;
                    i2 = i2 + 1;
                }
            }
            g = g + 1;
        }
        // local polish: single-pulse nudges, accepted only on improvement
        let mut b: u64 = 0;
        while b < self.polish_budget
            invariant
                b <= self.polish_budget,
                2 <= steps <= 0x400000,
                noise_pool@.len() > 0 ==> 2 <= noise_pool@[0]@.len() <= 0x400000,
                noise_pool@.len() > 0 ==> steps == noise_pool@[0]@.len(),
                forall|i: int|
                    0 <= i < noise_pool@.len() ==> (#[trigger] noise_pool@[i]@.len())
                        == noise_pool@[0]@.len(),
                best_score == snormscore(noise_pool@, best_seq@, noise_level as int, *cfg),
                best_score >= baseline,
                best_score <= FP_MAX,
            decreases self.polish_budget - b,
        {
            if best_seq.len() > 0 {
                let p = rand_below(rng, best_seq.len() as u64) as usize;
                let up = rand_below(rng, 2) == 1;
                let mut cand = copy_vec(&best_seq);
                let old = cand[p];
                let moved: u64 = if up {
                    if old < steps - 1 {
                        old + 1
                    } else {
                        old
                    }
                } else {
                    if old > 1 {
                        old - 1
                    } else {
                        old
                    }
                };
                cand[p] = moved;
                let sc = evaluate_sequence_with_pool(&cand, noise_level, noise_pool, cfg);
                if sc > best_score {
                    proof {
                        crate::fp::lemma_sclamp_bounded(
                            snormscore(noise_pool@, cand@, noise_level as int, *cfg),
                        );
                    }
                    best_seq = cand;
                    best_score = sc;
                }
            }
            b = b + 1;
        }
        let final_seq = normalize_pulses(&best_seq, steps);
        proof {
            lemma_norm_spec_idempotent(final_seq@, steps);
        }
        SearchOutcome { seq: final_seq, baseline_score: baseline, score: best_score }
    }
}

} // verus!
