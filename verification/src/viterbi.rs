//! Maximum-likelihood decoding of a two-state hidden Markov chain.
//!
//! Given a qubit's measurement history, the per-cycle flip probabilities
//! and the measurement error probability, dynamic programming tracks the
//! log-likelihood of the two final states (no net flip / net flip) and
//! returns whichever is strictly more likely. Probabilities are clamped
//! away from zero and one before the logarithm; the whole computation is
//! mirrored exactly by [`sviterbi`].

use vstd::prelude::*;
use crate::fp::{FP_ONE, sclamp, sadd, ssub, sdiv, fadd, fsub, fneg, fdiv};
use crate::trig::{sln, ln_fp};

verus! {

/// Probability clamped into the open unit interval (one fixed-point ulp
/// away from zero and one).
pub open spec fn sprob_clamp(p: int) -> int {
    if p < 1 {
        1
    } else if p > FP_ONE as int - 1 {
        FP_ONE as int - 1
    } else {
        p
    }
}

/// The log-likelihood of a probability: `ln p`, computed through the
/// reciprocal so the logarithm's argument is at least one.
pub open spec fn slnp(p: int) -> int {
    sclamp(-sln(sdiv(FP_ONE as int, sprob_clamp(p))))
}

/// `ln p` for a fixed-point probability.
pub fn ln_prob(p: i64) -> (r: i64)
    ensures
        r == slnp(p as int),
{
    let pc: i64 = if p < 1 {
        1
    } else if p > FP_ONE - 1 {
        FP_ONE - 1
    } else {
        p
    };
    let inv = fdiv(FP_ONE, pc);
    proof {
        let m = (crate::fp::sabs(FP_ONE as int) * (FP_ONE as int)) / crate::fp::sabs(pc as int);
        assert((FP_ONE as int) * (FP_ONE as int) / (pc as int) >= (FP_ONE as int) * (FP_ONE as int)
            / (FP_ONE as int)) by {
            vstd::arithmetic::div_mod::lemma_div_is_ordered_by_denominator(
                (FP_ONE as int) * (FP_ONE as int),
                pc as int,
                FP_ONE as int,
            );
        }
        assert((FP_ONE as int) * (FP_ONE as int) / (FP_ONE as int) == FP_ONE as int) by {
            vstd::arithmetic::div_mod::lemma_div_by_multiple(FP_ONE as int, FP_ONE as int);
        }
        assert(inv >= FP_ONE);
    }
    fneg(ln_fp(inv))
}

/// The pair of log-likelihood scores (state still correct, state flipped)
/// after the first `i` measurement cycles, for `i >= 1`.
pub open spec fn svit_scores(obs: Seq<bool>, ps: Seq<i64>, m: int, i: int) -> (int, int)
    decreases i,
{
    let p = ps[i - 1] as int;
    let lp = slnp(p);
    let l1p = slnp(ssub(FP_ONE as int, p));
    let lm = slnp(m);
    let l1m = slnp(ssub(FP_ONE as int, m));
    let emit0 = if obs[i - 1] {
        lm
    } else {
        l1m
    };
    let emit1 = if obs[i - 1] {
        l1m
    } else {
        lm
    };
    if i <= 1 {
        (sadd(l1p, emit0), sadd(lp, emit1))
    } else {
        let prev = svit_scores(obs, ps, m, i - 1);
        let t00 = sadd(prev.0, l1p);
        let t10 = sadd(prev.1, lp);
        let best0 = if t00 > t10 {
            t00
        } else {
            t10
        };
        let t01 = sadd(prev.0, lp);
        let t11 = sadd(prev.1, l1p);
        let best1 = if t01 > t11 {
            t01
        } else {
            t11
        };
        (sadd(emit0, best0), sadd(emit1, best1))
    }
}

/// The decoded final state: `true` when a net flip is strictly more likely
/// than none; an empty history decodes to `false`.
pub open spec fn sviterbi(obs: Seq<bool>, ps: Seq<i64>, m: int) -> bool {
    if obs.len() == 0 {
        false
    } else {
        let f = svit_scores(obs, ps, m, obs.len() as int);
        f.1 > f.0
    }
}

/// Decode one qubit's final logical value from its full measurement
/// history, by Viterbi maximum-likelihood path estimation over the
/// two-state hidden Markov chain parameterized by the per-cycle flip
/// probabilities and the fixed measurement error.
pub fn viterbi_final_state(obs: &Vec<bool>, p_flips: &Vec<i64>, meas_err: i64) -> (r: bool)
    requires
        obs@.len() == p_flips@.len(),
    ensures
        r == sviterbi(obs@, p_flips@, meas_err as int),
{
    let n = obs.len();
    if n == 0 {
        return false;
    }
    let lm = ln_prob(meas_err);
    let l1m = ln_prob(fsub(FP_ONE, meas_err));
    let p0 = p_flips[0];
    let lp0 = ln_prob(p0);
    let l1p0 = ln_prob(fsub(FP_ONE, p0));
    let emit0_first = if obs[0] {
        lm
    } else {
        l1m
    };
    let emit1_first = if obs[0] {
        l1m
    } else {
        lm
    };
    let mut prev0 = fadd(l1p0, emit0_first);
    let mut prev1 = fadd(lp0, emit1_first);
    let mut i: usize = 1;
    while i < n
        invariant
            1 <= i <= n,
            n == obs@.len(),
            n == p_flips@.len(),
            lm == slnp(meas_err as int),
            l1m == slnp(ssub(FP_ONE as int, meas_err as int)),
            prev0 == svit_scores(obs@, p_flips@, meas_err as int, i as int).0,
            prev1 == svit_scores(obs@, p_flips@, meas_err as int, i as int).1,
        decreases n - i,
    {
        let p = p_flips[i];
        let lp = ln_prob(p);
        let l1p = ln_prob(fsub(FP_ONE, p));
        let emit0 = if obs[i] {
            lm
        } else {
            l1m
        };
        let emit1 = if obs[i] {
            l1m
        } else {
            lm
        };
        let t00 = fadd(prev0, l1p);
        let t10 = fadd(prev1, lp);
        let best0 = if t00 > t10 {
            t00
        } else {
            t10
        };
        let t01 = fadd(prev0, lp);
        let t11 = fadd(prev1, l1p);
        let best1 = if t01 > t11 {
            t01
        } else {
            t11
        };
        prev0 = fadd(emit0, best0);
        prev1 = fadd(emit1, best1);
        i = i + 1;
    }
    prev1 > prev0
}

} // verus!
