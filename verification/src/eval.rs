//! The sequence-fitness evaluator.
//!
//! A candidate pulse sequence is scored against a pool of noise traces: the
//! toggle function accumulates phase against each trace, coherence
//! `cos(phase)` is sampled at four fixed fractional checkpoints of the
//! duration and combined with weights that favour late-time coherence, the
//! result is averaged over the pool, and two penalties are subtracted — the
//! low-order time moments of the toggle function, and an optional spectral
//! notch against a known resonance frequency. Every step is specified
//! exactly: `evaluate_sequence_with_pool` returns precisely
//! [`sscore`] of its inputs, with the pulse sequence normalized first, so
//! the score depends only on the *set* of in-range pulse indices.
//!
//! The notch penalty is active only when both its frequency and its weight
//! are positive; an inconsistent configuration (one of them missing) is
//! deterministically treated as "filter disabled", not as an error.

use vstd::prelude::*;
use crate::fp::{FP_ONE, sclamp, sadd, ssub, smul, sdivi, fadd, fsub, fmul, fdivi, fp_clamp_wide,
    fp_from_int};
use crate::trig::{scos, ssin, cos_fp, sin_fp};
use crate::pulse::{toggle_up, norm_spec, normalize_pulses, build_toggle, strictly_increasing};

verus! {

/// Evaluator knobs, threaded explicitly through every call: the order of
/// the moment penalty (`0` disables it, values above `3` act as `3`), and
/// the notch filter's target angular frequency and weight (both fixed
/// point; the filter is active only when both are positive).
pub struct EvalConfig {
    pub moment_order: u64,
    pub notch_omega: i64,
    pub notch_weight: i64,
}

impl Clone for EvalConfig {
    fn clone(&self) -> (r: Self)
        ensures
            r == *self,
    {
        EvalConfig {
            moment_order: self.moment_order,
            notch_omega: self.notch_omega,
            notch_weight: self.notch_weight,
        }
    }
}

/// The accumulated phase after the first `t` time steps: each step adds the
/// toggle-signed, amplitude-scaled noise sample.
pub open spec fn sphase(trace: Seq<i64>, ns: Seq<u64>, amp: int, t: int) -> int
    decreases t,
{
    if t <= 0 {
        0
    } else {
        let prev = sphase(trace, ns, amp, t - 1);
        let term = smul(trace[t - 1] as int, amp);
        if toggle_up(ns, t - 1) {
            sadd(prev, term)
        } else {
            ssub(prev, term)
        }
    }
}

/// Checkpoint `k` of four: the duration scaled by 0.4, 0.6, 0.8 and 1.0,
/// rounded to the nearest time step.
pub open spec fn scheck(steps: int, k: int) -> int {
    ((steps - 1) * (2 * k + 4) + 5) / 10
}

/// The weighted late-time coherence of one noise trace. Coherence is
/// sampled where the scan reaches a checkpoint for the first time; a
/// checkpoint that collides with an earlier one (possible only for very
/// short traces) contributes zero, as the scan passes it only once.
pub open spec fn strace(trace: Seq<i64>, ns: Seq<u64>, amp: int) -> int {
    let steps = trace.len() as int;
    let c0 = scheck(steps, 0);
    let c1 = scheck(steps, 1);
    let c2 = scheck(steps, 2);
    let c3 = scheck(steps, 3);
    let s0 = scos(sphase(trace, ns, amp, c0 + 1));
    let s1 = if c1 > c0 {
        scos(sphase(trace, ns, amp, c1 + 1))
    } else {
        0
    };
    let s2 = if c1 > c0 && c2 > c1 {
        scos(sphase(trace, ns, amp, c2 + 1))
    } else {
        0
    };
    let s3 = if c1 > c0 && c2 > c1 && c3 > c2 {
        scos(sphase(trace, ns, amp, c3 + 1))
    } else {
        0
    };
    sdivi(sadd(sadd(sadd(s0, sclamp(2 * s1)), sclamp(3 * s2)), sclamp(4 * s3)), 10)
}

/// The sum of the trace scores of the first `n` traces of the pool.
pub open spec fn spoolsum(pool: Seq<Vec<i64>>, ns: Seq<u64>, amp: int, n: int) -> int
    decreases n,
{
    if n <= 0 {
        0
    } else {
        sadd(spoolsum(pool, ns, amp, n - 1), strace(pool[n - 1]@, ns, amp))
    }
}

/// Normalized time of step `t`, in `[0, 1]`.
pub open spec fn stnorm(steps: int, t: int) -> int {
    sdivi(sclamp(t * (FP_ONE as int)), steps - 1)
}

/// The normalized time increment `1 / (steps - 1)`.
pub open spec fn sdtn(steps: int) -> int {
    sdivi(FP_ONE as int, steps - 1)
}

/// Partial sum of the `k`-th time moment of the toggle function over the
/// first `t` steps: `sum of t_norm^k * y(t) * dt_norm`.
pub open spec fn smom(ns: Seq<u64>, steps: int, k: int, t: int) -> int
    decreases t,
{
    if t <= 0 {
        0
    } else {
        let prev = smom(ns, steps, k, t - 1);
        let tn = stnorm(steps, t - 1);
        let term = if k == 0 {
            sdtn(steps)
        } else if k == 1 {
            smul(tn, sdtn(steps))
        } else {
            smul(smul(tn, tn), sdtn(steps))
        };
        if toggle_up(ns, t - 1) {
            sadd(prev, term)
        } else {
            ssub(prev, term)
        }
    }
}

/// The moment penalty: the mean of the squared moments up to the given
/// order; zero when the order is zero. Orders above three act as three.
pub open spec fn smompen(ns: Seq<u64>, steps: int, order: int) -> int {
    let ord = if order > 3 {
        3
    } else {
        order
    };
    if ord <= 0 {
        0
    } else {
        let m0 = smom(ns, steps, 0, steps);
        let m1 = smom(ns, steps, 1, steps);
        let m2 = smom(ns, steps, 2, steps);
        let acc = if ord == 1 {
            smul(m0, m0)
        } else if ord == 2 {
            sadd(smul(m0, m0), smul(m1, m1))
        } else {
            sadd(sadd(smul(m0, m0), smul(m1, m1)), smul(m2, m2))
        };
        sdivi(acc, ord)
    }
}

/// Partial sum of the projection of the toggle function onto
/// `cos(omega * t)` over the first `t` steps.
pub open spec fn snotch_re(ns: Seq<u64>, omega: int, t: int) -> int
    decreases t,
{
    if t <= 0 {
        0
    } else {
        let prev = snotch_re(ns, omega, t - 1);
        let term = scos(smul(omega, sclamp((t - 1) * (FP_ONE as int))));
        if toggle_up(ns, t - 1) {
            sadd(prev, term)
        } else {
            ssub(prev, term)
        }
    }
}

/// Partial sum of the projection of the toggle function onto
/// `sin(omega * t)` over the first `t` steps.
pub open spec fn snotch_im(ns: Seq<u64>, omega: int, t: int) -> int
    decreases t,
{
    if t <= 0 {
        0
    } else {
        let prev = snotch_im(ns, omega, t - 1);
        let term = ssin(smul(omega, sclamp((t - 1) * (FP_ONE as int))));
        if toggle_up(ns, t - 1) {
            sadd(prev, term)
        } else {
            ssub(prev, term)
        }
    }
}

/// The spectral notch penalty: `weight * |projection|^2 / steps^2`, active
/// only when both the frequency and the weight are positive.
pub open spec fn snotchpen(ns: Seq<u64>, steps: int, omega: int, weight: int) -> int {
    if omega <= 0 || weight <= 0 {
        0
    } else {
        let re = snotch_re(ns, omega, steps);
        let im = snotch_im(ns, omega, steps);
        let u = sadd(smul(re, re), smul(im, im));
        smul(weight, sdivi(sdivi(u, steps), steps))
    }
}

/// The full fitness score of a normalized sequence against a pool: the
/// pool-averaged weighted coherence minus the moment and notch penalties.
/// An empty pool scores zero.
pub open spec fn sscore(pool: Seq<Vec<i64>>, ns: Seq<u64>, amp: int, cfg: EvalConfig) -> int {
    if pool.len() == 0 {
        0
    } else {
        let steps = pool[0]@.len() as int;
        let avg = sdivi(spoolsum(pool, ns, amp, pool.len() as int), pool.len() as int);
        ssub(
            ssub(avg, smompen(ns, steps, cfg.moment_order as int)),
            snotchpen(ns, steps, cfg.notch_omega as int, cfg.notch_weight as int),
        )
    }
}

/// `y` is the toggle table of `ns` over `steps` steps.
pub open spec fn toggle_matches(y: Seq<bool>, ns: Seq<u64>, steps: int) -> bool {
    &&& y.len() == steps
    &&& forall|t: int| 0 <= t < steps ==> y[t] == toggle_up(ns, t)
}

/// The weighted coherence of one trace, by a single scan.
fn trace_score(trace: &Vec<i64>, y: &Vec<bool>, ns: &Vec<u64>, amp: i64) -> (r: i64)
    requires
        2 <= trace@.len() <= 0x400000,
        toggle_matches(y@, ns@, trace@.len() as int),
    ensures
        r == strace(trace@, ns@, amp as int),
{
    let steps: u64 = trace.len() as u64;
    let c0: u64 = ((steps - 1) * 4 + 5) / 10;
    let c1: u64 = ((steps - 1) * 6 + 5) / 10;
    let c2: u64 = ((steps - 1) * 8 + 5) / 10;
    let c3: u64 = ((steps - 1) * 10 + 5) / 10;
    let cap1 = c1 > c0;
    let cap2 = cap1 && c2 > c1;
    let cap3 = cap2 && c3 > c2;
    let mut s0: i64 = 0;
    let mut s1: i64 = 0;
    let mut s2: i64 = 0;
    let mut s3: i64 = 0;
    let mut phase: i64 = 0;
    let mut t: u64 = 0;
    while t < steps
        invariant
            t <= steps,
            steps == trace@.len(),
            2 <= steps <= 0x400000,
            toggle_matches(y@, ns@, steps as int),
            c0 == scheck(steps as int, 0),
            c1 == scheck(steps as int, 1),
            c2 == scheck(steps as int, 2),
            c3 == scheck(steps as int, 3),
            cap1 == (c1 > c0),
            cap2 == (c1 > c0 && c2 > c1),
            cap3 == (c1 > c0 && c2 > c1 && c3 > c2),
            phase == sphase(trace@, ns@, amp as int, t as int),
            s0 == if c0 < t {
                scos(sphase(trace@, ns@, amp as int, c0 as int + 1))
            } else {
                0
            },
            s1 == if cap1 && c1 < t {
                scos(sphase(trace@, ns@, amp as int, c1 as int + 1))
            } else {
                0
            },
            s2 == if cap2 && c2 < t {
                scos(sphase(trace@, ns@, amp as int, c2 as int + 1))
            } else {
                0
            },
            s3 == if cap3 && c3 < t {
                scos(sphase(trace@, ns@, amp as int, c3 as int + 1))
            } else {
                0
            },
        decreases steps - t,
    {
        let term = fmul(trace[t as usize], amp);
        phase = if y[t as usize] {
            fadd(phase, term)
        } else {
            fsub(phase, term)
        };
        if t == c0 {
            s0 = cos_fp(phase);
        }
        if cap1 && t == c1 {
            s1 = cos_fp(phase);
        }
        if cap2 && t == c2 {
            s2 = cos_fp(phase);
        }
        if cap3 && t == c3 {
            s3 = cos_fp(phase);
        }
        t = t + 1;
    }
    proof {
        assert(c0 < steps && c1 < steps && c2 < steps && c3 < steps) by {
            assert(c3 == ((steps as int - 1) * 10 + 5) / 10);
            assert(((steps as int - 1) * 10 + 5) / 10 == steps as int - 1) by {
                vstd::arithmetic::div_mod::lemma_div_multiples_vanish_fancy(
                    steps as int - 1,
                    5,
                    10,
                );
            }
        }
    }
    let w1 = fp_clamp_wide((s1 as i128) * 2);
    let w2 = fp_clamp_wide((s2 as i128) * 3);
    let w3 = fp_clamp_wide((s3 as i128) * 4);
    fdivi(fadd(fadd(fadd(s0, w1), w2), w3), 10)
}

/// The moment penalty, by a single scan over the toggle table.
fn moment_penalty(ns: &Vec<u64>, y: &Vec<bool>, steps: u64, order: u64) -> (r: i64)
    requires
        2 <= steps <= 0x400000,
        toggle_matches(y@, ns@, steps as int),
    ensures
        r == smompen(ns@, steps as int, order as int),
{
    let ord: u64 = if order > 3 {
        3
    } else {
        order
    };
    if ord == 0 {
        return 0;
    }
    let dtn = fdivi(FP_ONE, steps - 1);
    let mut m0: i64 = 0;
    let mut m1: i64 = 0;
    let mut m2: i64 = 0;
    let mut t: u64 = 0;
    while t < steps
        invariant
            t <= steps,
            2 <= steps <= 0x400000,
            toggle_matches(y@, ns@, steps as int),
            dtn == sdtn(steps as int),
            m0 == smom(ns@, steps as int, 0, t as int),
            m1 == smom(ns@, steps as int, 1, t as int),
            m2 == smom(ns@, steps as int, 2, t as int),
        decreases steps - t,
    {
        let tn = fdivi(fp_from_int(t as i64), steps - 1);
        proof {
            assert(tn == stnorm(steps as int, t as int));
        }
        let term1 = fmul(tn, dtn);
        let term2 = fmul(fmul(tn, tn), dtn);
        if y[t as usize] {
            m0 = fadd(m0, dtn);
            m1 = fadd(m1, term1);
            m2 = fadd(m2, term2);
        } else {
            m0 = fsub(m0, dtn);
            m1 = fsub(m1, term1);
            m2 = fsub(m2, term2);
        }
        t = t + 1;
    }
    let acc = if ord == 1 {
        fmul(m0, m0)
    } else if ord == 2 {
        fadd(fmul(m0, m0), fmul(m1, m1))
    } else {
        fadd(fadd(fmul(m0, m0), fmul(m1, m1)), fmul(m2, m2))
    };
    fdivi(acc, ord)
}

/// The notch penalty, by a single scan over the toggle table.
fn notch_penalty(ns: &Vec<u64>, y: &Vec<bool>, steps: u64, omega: i64, weight: i64) -> (r: i64)
    requires
        2 <= steps <= 0x400000,
        toggle_matches(y@, ns@, steps as int),
    ensures
        r == snotchpen(ns@, steps as int, omega as int, weight as int),
{
    if omega <= 0 || weight <= 0 {
        return 0;
    }
    let mut re: i64 = 0;
    let mut im: i64 = 0;
    let mut t: u64 = 0;
    while t < steps
        invariant
            t <= steps,
            2 <= steps <= 0x400000,
            toggle_matches(y@, ns@, steps as int),
            re == snotch_re(ns@, omega as int, t as int),
            im == snotch_im(ns@, omega as int, t as int),
        decreases steps - t,
    {
        let ph = fmul(omega, fp_from_int(t as i64));
        let c = cos_fp(ph);
        let s = sin_fp(ph);
        if y[t as usize] {
            re = fadd(re, c);
            im = fadd(im, s);
        } else {
            re = fsub(re, c);
            im = fsub(im, s);
        }
        t = t + 1;
    }
    let u = fadd(fmul(re, re), fmul(im, im));
    fmul(weight, fdivi(fdivi(u, steps), steps))
}

/// Score a candidate pulse sequence against a pool of noise traces.
///
/// The input indices are normalized first (sorted, duplicates dropped,
/// clamped to the open interval of the duration), so the result is exactly
/// [`sscore`] of the *normalized* sequence: any two inputs holding the same
/// set of in-range indices score identically. An empty pool scores zero.
#[verifier::rlimit(60)]
pub fn evaluate_sequence_with_pool(
    pulses: &Vec<u64>,
    noise_amp: i64,
    pool: &Vec<Vec<i64>>,
    cfg: &EvalConfig,
) -> (r: i64)
    requires
        pool@.len() > 0 ==> 2 <= pool@[0]@.len() <= 0x400000,
        forall|i: int| 0 <= i < pool@.len() ==> (#[trigger] pool@[i]@.len()) == pool@[0]@.len(),
    ensures
        r == sscore(
            pool@,
            norm_spec(pulses@, if pool@.len() == 0 {
                0
            } else {
                pool@[0]@.len() as u64
            }),
            noise_amp as int,
            *cfg,
        ),
        pool@.len() == 0 ==> r == 0,
{
    if pool.len() == 0 {
        return 0;
    }
    let steps: u64 = pool[0].len() as u64;
    let ns = normalize_pulses(pulses, steps);
    let y = build_toggle(&ns, steps);
    let mut sum: i64 = 0;
    let mut i: usize = 0;
    while i < pool.len()
        invariant
            i <= pool@.len(),
            pool@.len() > 0,
            steps == pool@[0]@.len(),
            2 <= steps <= 0x400000,
            forall|k: int| 0 <= k < pool@.len() ==> (#[trigger] pool@[k]@.len()) == pool@[0]@.len(),
            toggle_matches(y@, ns@, steps as int),
            sum == spoolsum(pool@, ns@, noise_amp as int, i as int),
        decreases pool@.len() - i,
    {
        let ts = trace_score(&pool[i], &y, &ns, noise_amp);
        sum = fadd(sum, ts);
        i = i + 1;
    }
    let avg = fdivi(sum, pool.len() as u64);
    let mp = moment_penalty(&ns, &y, steps, cfg.moment_order);
    let np = notch_penalty(&ns, &y, steps, cfg.notch_omega, cfg.notch_weight);
    let r = fsub(fsub(avg, mp), np);
    proof {
        assert(ns@ == norm_spec(pulses@, steps));
    }
    r
}

/// The score is invariant under reordering (and duplication) of the pulse
/// indices: two inputs holding the same set of members normalize to the
/// same sequence, so they score identically against every pool.
pub proof fn lemma_score_permutation_invariant(
    pool: Seq<Vec<i64>>,
    s1: Seq<u64>,
    s2: Seq<u64>,
    amp: int,
    cfg: EvalConfig,
    steps: u64,
)
    requires
        forall|y: u64| s1.contains(y) <==> s2.contains(y),
    ensures
        sscore(pool, norm_spec(s1, steps), amp, cfg) == sscore(pool, norm_spec(s2, steps), amp, cfg),
{
    crate::pulse::lemma_norm_spec_same_set(s1, s2, steps);
}

/// With zero noise amplitude the accumulated phase is exactly zero.
proof fn lemma_sphase_zero(trace: Seq<i64>, ns: Seq<u64>, t: int)
    ensures
        sphase(trace, ns, 0, t) == 0,
    decreases t,
{
    if t > 0 {
        lemma_sphase_zero(trace, ns, t - 1);
        crate::fp::lemma_smul_zero(trace[t - 1] as int);
    }
}

/// Checkpoints are strictly increasing once the trace is at least six
/// steps long.
proof fn lemma_checks_increase(steps: int)
    requires
        steps >= 6,
    ensures
        scheck(steps, 0) < scheck(steps, 1) < scheck(steps, 2) < scheck(steps, 3),
{
    let n = steps - 1;
    assert(n >= 5);
    assert((steps - 1) * (2 * 0 + 4) == 4 * n && (steps - 1) * (2 * 1 + 4) == 6 * n && (steps - 1)
        * (2 * 2 + 4) == 8 * n && (steps - 1) * (2 * 3 + 4) == 10 * n) by (nonlinear_arith)
        requires
            n == steps - 1,
    ;
    assert(scheck(steps, 0) == (4 * n + 5) / 10);
    assert(scheck(steps, 1) == (6 * n + 5) / 10);
    assert(scheck(steps, 2) == (8 * n + 5) / 10);
    assert(scheck(steps, 3) == (10 * n + 5) / 10);
    vstd::arithmetic::div_mod::lemma_div_plus_one(4 * n + 5, 10);
    vstd::arithmetic::div_mod::lemma_div_plus_one(6 * n + 5, 10);
    vstd::arithmetic::div_mod::lemma_div_plus_one(8 * n + 5, 10);
    vstd::arithmetic::div_mod::lemma_div_is_ordered(10 + (4 * n + 5), 6 * n + 5, 10);
    vstd::arithmetic::div_mod::lemma_div_is_ordered(10 + (6 * n + 5), 8 * n + 5, 10);
    vstd::arithmetic::div_mod::lemma_div_is_ordered(10 + (8 * n + 5), 10 * n + 5, 10);
    assert(1 + (4 * n + 5) / 10 <= (6 * n + 5) / 10);
    assert(1 + (6 * n + 5) / 10 <= (8 * n + 5) / 10);
    assert(1 + (8 * n + 5) / 10 <= (10 * n + 5) / 10);
}

/// With zero amplitude every trace scores exactly one: all four coherence
/// samples are `cos(0)`.
proof fn lemma_strace_one(trace: Seq<i64>, ns: Seq<u64>)
    requires
        6 <= trace.len(),
    ensures
        strace(trace, ns, 0) == FP_ONE as int,
{
    let steps = trace.len() as int;
    lemma_checks_increase(steps);
    lemma_sphase_zero(trace, ns, scheck(steps, 0) + 1);
    lemma_sphase_zero(trace, ns, scheck(steps, 1) + 1);
    lemma_sphase_zero(trace, ns, scheck(steps, 2) + 1);
    lemma_sphase_zero(trace, ns, scheck(steps, 3) + 1);
    crate::trig::lemma_scos_zero();
    assert(sdivi(10 * (FP_ONE as int), 10) == FP_ONE as int) by {
        vstd::arithmetic::div_mod::lemma_div_multiples_vanish(FP_ONE as int, 10);
    }
}

/// With zero amplitude the pool sum is the pool size times one.
proof fn lemma_spoolsum_ones(pool: Seq<Vec<i64>>, ns: Seq<u64>, n: int)
    requires
        0 <= n <= pool.len(),
        pool.len() <= 0x100000,
        forall|i: int| 0 <= i < pool.len() ==> 6 <= (#[trigger] pool[i]@.len()),
    ensures
        spoolsum(pool, ns, 0, n) == n * (FP_ONE as int),
    decreases n,
{
    if n > 0 {
        lemma_spoolsum_ones(pool, ns, n - 1);
        lemma_strace_one(pool[n - 1]@, ns);
        assert((n - 1) * (FP_ONE as int) + FP_ONE as int == n * (FP_ONE as int))
            by (nonlinear_arith);
        assert(0 <= n * (FP_ONE as int) <= 0x100000 * (FP_ONE as int)) by (nonlinear_arith)
            requires
                0 < n <= 0x100000,
        ;
    }
}

/// Against a pool evaluated at zero noise amplitude — no decoherence at
/// all — every pulse sequence scores exactly one, provided the penalties
/// are switched off (moment order zero; notch inactive).
pub proof fn lemma_zero_amplitude_score(pool: Seq<Vec<i64>>, ns: Seq<u64>, cfg: EvalConfig)
    requires
        0 < pool.len() <= 0x100000,
        forall|i: int| 0 <= i < pool.len() ==> (#[trigger] pool[i]@.len()) == pool[0]@.len(),
        6 <= pool[0]@.len(),
        cfg.moment_order == 0,
        cfg.notch_omega <= 0 || cfg.notch_weight <= 0,
    ensures
        sscore(pool, ns, 0, cfg) == FP_ONE as int,
{
    let n = pool.len() as int;
    lemma_spoolsum_ones(pool, ns, n);
    assert(sdivi(n * (FP_ONE as int), n) == FP_ONE as int) by {
        assert(0 <= n * (FP_ONE as int) <= 0x100000 * (FP_ONE as int)) by (nonlinear_arith)
            requires
                0 < n <= 0x100000,
        ;
        vstd::arithmetic::div_mod::lemma_div_multiples_vanish(FP_ONE as int, n);
    }
}

} // verus!
