//! Monte-Carlo simulation of quantum error correction over the optimized
//! pulse sequence: a repetition code decoded by per-qubit Viterbi
//! estimation and majority vote, and a fixed nine-qubit surface-code patch
//! decoded by minimum-distance syndrome matching.
//!
//! Outcomes are random, so the contracts state what holds of every run:
//! when a call is owed success, how the reported rates and the gain are
//! computed from the raw counts, that the counts stay within their slots,
//! and — deterministically — that runs with every error channel switched
//! off report exactly zero: the surface-code patch under zero amplitude
//! and ideal measurement has no physical or logical errors, and the
//! repetition code with no amplitude, no gate-error floor and relaxation
//! disabled has no physical flips. The two variants deliberately keep their different
//! per-cycle error models: the repetition code composes dephasing with a
//! thermal-relaxation term and a gate-error floor, the surface-code patch
//! uses the dephasing probability alone.

use vstd::prelude::*;
use crate::SfeError;
use crate::fp::{FP_ONE, sclamp, sadd, ssub, smul, sdiv, sdivi, fadd, fsub, fmul, fdiv, fdivi,
    fp_from_int};
use crate::trig::{scos, cos_fp, exp_neg_fp};
use crate::noise::{MAX_STEPS, correlated_traces};
use crate::rng::{SfeRng, coin, uniform_fp};
use crate::viterbi::viterbi_final_state;

verus! {

/// Most Monte-Carlo trials of one run.
pub const MAX_TRIALS: u64 = 1000000;

/// Largest supported repetition-code distance.
pub const MAX_DISTANCE: u64 = 99;

/// The phase-accumulation scale of the simulator: 0.01 per step.
pub const PHASE_SCALE_FP: i64 = 42949673;

/// Simulator knobs, threaded explicitly: noise spectral exponent and
/// amplitude scale, thermal-relaxation time (in steps, fixed point),
/// gate-error floor, measurement error probability, inter-qubit noise
/// correlation, and an optional injected resonance line (active only when
/// both its frequency and amplitude are positive).
pub struct QecConfig {
    pub alpha: i64,
    pub scale: i64,
    pub t1_steps: i64,
    pub gate_err: i64,
    pub meas_err: i64,
    pub rho: i64,
    pub tone_omega: i64,
    pub tone_amp: i64,
}

impl Clone for QecConfig {
    fn clone(&self) -> (r: Self)
        ensures
            r == *self,
    {
        QecConfig {
            alpha: self.alpha,
            scale: self.scale,
            t1_steps: self.t1_steps,
            gate_err: self.gate_err,
            meas_err: self.meas_err,
            rho: self.rho,
            tone_omega: self.tone_omega,
            tone_amp: self.tone_amp,
        }
    }
}

/// Aggregate outcome of one Monte-Carlo run: the raw counts, and the rates
/// and gain computed from them.
#[derive(Debug)]
pub struct QECResult {
    pub distance: u64,
    pub physical_flips: u64,
    pub physical_slots: u64,
    pub logical_failures: u64,
    pub trials: u64,
    pub physical_error_rate: i64,
    pub logical_error_rate: i64,
    pub gain: i64,
}

/// A rate as the exact fixed-point quotient `count / total`, computed in
/// wide arithmetic (no saturation); zero when the total is zero.
pub open spec fn srate(count: int, total: int) -> int {
    if total <= 0 {
        0
    } else {
        (count * (FP_ONE as int)) / total
    }
}

/// The exact rate of a count within its total.
fn rate_of(count: u64, total: u64) -> (r: i64)
    requires
        count <= total,
    ensures
        r == srate(count as int, total as int),
        0 <= r <= FP_ONE,
{
    if total == 0 {
        return 0;
    }
    proof {
        assert((count as u128) * (FP_ONE as u128) <= (total as u128) * (FP_ONE as u128))
            by (nonlinear_arith)
            requires
                count as u128 <= total as u128,
        ;
        vstd::arithmetic::div_mod::lemma_div_is_ordered(
            count as int * (FP_ONE as int),
            total as int * (FP_ONE as int),
            total as int,
        );
        vstd::arithmetic::div_mod::lemma_div_multiples_vanish(FP_ONE as int, total as int);
        vstd::arithmetic::div_mod::lemma_div_pos_is_pos(
            count as int * (FP_ONE as int),
            total as int,
        );
        assert(count as int * (FP_ONE as int) >= 0) by (nonlinear_arith)
            requires
                count as int >= 0,
        ;
    }
    let wide: u128 = (count as u128) * (FP_ONE as u128);
    let q: u128 = wide / (total as u128);
    q as i64
}

/// How the rates and the gain are owed to the counts: each rate is the
/// exact fixed-point quotient of its counts (a probability, between zero
/// and one), and the gain is their ratio — or the sentinel `-1`,
/// signalling unmeasured / perfect suppression, when the logical rate is
/// exactly zero.
pub open spec fn rates_consistent(r: QECResult) -> bool {
    &&& r.physical_error_rate == srate(r.physical_flips as int, r.physical_slots as int)
    &&& r.logical_error_rate == srate(r.logical_failures as int, r.trials as int)
    &&& 0 <= r.physical_error_rate <= FP_ONE
    &&& 0 <= r.logical_error_rate <= FP_ONE
    &&& r.gain == if r.logical_error_rate > 0 {
        sdiv(r.physical_error_rate as int, r.logical_error_rate as int)
    } else {
        -(FP_ONE as int)
    }
    &&& r.logical_failures <= r.trials
    &&& r.physical_flips <= r.physical_slots
}

/// A trial fails when a strict majority of the decoded qubits disagree
/// with the correct value.
pub open spec fn smajority_fails(errors: int, distance: int) -> bool {
    errors > distance / 2
}

/// At distance one no majority-vote correction is possible: the trial
/// fails exactly when its single decoded qubit is wrong.
pub proof fn lemma_majority_distance_one(errors: int)
    requires
        0 <= errors <= 1,
    ensures
        smajority_fails(errors, 1) <==> errors == 1,
{
}

/// Probability clamped into `[0, 1]`.
pub open spec fn sp01(x: int) -> int {
    if x < 0 {
        0
    } else if x > FP_ONE as int {
        FP_ONE as int
    } else {
        x
    }
}

/// Unit-interval clamp, executable form.
fn p01(x: i64) -> (r: i64)
    ensures
        r == sp01(x as int),
{
    if x < 0 {
        0
    } else if x > FP_ONE {
        FP_ONE
    } else {
        x
    }
}

/// `r` is a reduced pulse slot of the cycle: some pulse index lands on it
/// modulo the cycle length.
pub open spec fn smember(seq: Seq<u64>, interval: u64, r: int) -> bool {
    exists|i: int| 0 <= i < seq.len() && (#[trigger] seq[i]) % (interval as u64) == r
}

/// The cycle's toggle slots as a table: entry `r` says whether a pulse
/// lands on slot `r` of the cycle.
fn build_member(seq: &Vec<u64>, interval: u64) -> (r: Vec<bool>)
    requires
        1 <= interval <= 0x400000,
    ensures
        r@.len() == interval,
        forall|q: int| 0 <= q < interval ==> (#[trigger] r@[q]) == smember(seq@, interval, q),
{
    let mut tab: Vec<bool> = Vec::new();
    let mut q: u64 = 0;
    while q < interval
        invariant
            q <= interval,
            tab@.len() == q,
            forall|k: int| 0 <= k < q ==> !(#[trigger] tab@[k]),
        decreases interval - q,
    {
        tab.push(false);
        q = q + 1;
    }
    let mut i: usize = 0;
    while i < seq.len()
        invariant
            i <= seq@.len(),
            tab@.len() == interval,
            1 <= interval <= 0x400000,
            forall|k: int|
                0 <= k < interval ==> (#[trigger] tab@[k]) == (exists|j: int|
                    0 <= j < i && (#[trigger] seq@[j]) % (interval as u64) == k),
        decreases seq@.len() - i,
    {
        let slot = (seq[i] % interval) as usize;
        let ghost tab0 = tab@;
        tab[slot] = true;
        proof {
            assert forall|k: int|
                0 <= k < interval implies (#[trigger] tab@[k]) == (exists|j: int|
                    0 <= j < i + 1 && (#[trigger] seq@[j]) % (interval as u64) == k) by {
                if k == slot as int {
                    assert(seq@[i as int] % (interval as u64) == k);
                } else {
                    assert(tab@[k] == tab0[k]);
                    if exists|j: int| 0 <= j < i + 1 && (#[trigger] seq@[j]) % (interval as u64)
                        == k {
                        let j = choose|j: int|
                            0 <= j < i + 1 && (#[trigger] seq@[j]) % (interval as u64) == k;
                        assert(j < i);
                    }
                }
            }
        }
        i = i + 1;
    }
    proof {
        assert forall|k: int|
            0 <= k < interval implies (#[trigger] tab@[k]) == smember(seq@, interval, k) by {
        }
    }
    tab
}

/// How many toggle slots lie strictly before slot `t` of the cycle,
/// counting slot `t - 1` itself.
pub open spec fn smember_count(member: Seq<bool>, t: int) -> nat
    decreases t,
{
    if t <= 0 {
        0
    } else {
        smember_count(member, t - 1) + if member[t - 1] {
            1nat
        } else {
            0nat
        }
    }
}

/// The phase accumulated over one measurement cycle: each step adds the
/// toggle-signed, amplitude- and scale-weighted noise sample.
pub open spec fn scphase(trace: Seq<i64>, member: Seq<bool>, amp: int, start: int, t: int) -> int
    decreases t,
{
    if t <= 0 {
        0
    } else {
        let prev = scphase(trace, member, amp, start, t - 1);
        let term = smul(smul(trace[start + t - 1] as int, amp), PHASE_SCALE_FP as int);
        if smember_count(member, t) % 2 == 0 {
            sadd(prev, term)
        } else {
            ssub(prev, term)
        }
    }
}

/// With zero amplitude the cycle phase is exactly zero.
pub proof fn lemma_scphase_zero(trace: Seq<i64>, member: Seq<bool>, start: int, t: int)
    ensures
        scphase(trace, member, 0, start, t) == 0,
    decreases t,
{
    if t > 0 {
        lemma_scphase_zero(trace, member, start, t - 1);
        crate::fp::lemma_smul_zero(trace[start + t - 1] as int);
        crate::fp::lemma_smul_zero(PHASE_SCALE_FP as int);
    }
}

/// One cycle's accumulated phase for one qubit.
fn cycle_phase(trace: &Vec<i64>, member: &Vec<bool>, amp: i64, start: u64, interval: u64) -> (r:
    i64)
    requires
        member@.len() == interval,
        start + interval <= trace@.len(),
        trace@.len() <= 0x400000,
    ensures
        r == scphase(trace@, member@, amp as int, start as int, interval as int),
{
    let mut phase: i64 = 0;
    let mut parity_even = true;
    let mut t: u64 = 0;
    while t < interval
        invariant
            t <= interval,
            member@.len() == interval,
            start + interval <= trace@.len(),
            trace@.len() <= 0x400000,
            parity_even == (smember_count(member@, t as int) % 2 == 0),
            phase == scphase(trace@, member@, amp as int, start as int, t as int),
        decreases interval - t,
    {
        proof {
            assert(smember_count(member@, t as int + 1) == smember_count(member@, t as int)
                + if member@[t as int] {
                1nat
            } else {
                0nat
            });
        }
        if member[t as usize] {
            parity_even = !parity_even;
        }
        let term = fmul(fmul(trace[(start + t) as usize], amp), PHASE_SCALE_FP);
        phase = if parity_even {
            fadd(phase, term)
        } else {
            fsub(phase, term)
        };
        t = t + 1;
    }
    phase
}

/// The per-cycle flip probability of the repetition code: the complement
/// of surviving dephasing, thermal relaxation and a fixed gate-error floor
/// independently, clamped into the unit interval.
pub open spec fn srep_flip_prob(phase: int, p_t1: int, gate_err: int) -> int {
    let p_phase = sdivi(ssub(FP_ONE as int, scos(phase)), 2);
    sp01(
        ssub(
            FP_ONE as int,
            smul(
                smul(ssub(FP_ONE as int, p_phase), ssub(FP_ONE as int, p_t1)),
                ssub(FP_ONE as int, gate_err),
            ),
        ),
    )
}

/// With a zero phase, no relaxation and no gate-error floor, the composed
/// flip probability is exactly zero: every survival factor is one.
proof fn lemma_rep_flip_prob_quiet(gate_err: int)
    requires
        gate_err <= 0,
    ensures
        srep_flip_prob(0, 0, gate_err) == 0,
{
    crate::trig::lemma_scos_zero();
    vstd::arithmetic::div_mod::lemma_div_of0(2);
    let one = FP_ONE as int;
    assert(ssub(one, scos(0)) == 0);
    assert(sdivi(0, 2) == 0) by {
        vstd::arithmetic::div_mod::lemma_div_of0(2);
    }
    let g = ssub(one, gate_err);
    assert(one <= g <= one + crate::fp::sabs(gate_err));
    assert(smul(one, one) == one) by {
        vstd::arithmetic::div_mod::lemma_div_by_multiple(one, one);
    }
    assert(smul(one, g) >= one) by {
        assert(crate::fp::sabs(one) * crate::fp::sabs(g) >= one * one) by (nonlinear_arith)
            requires
                crate::fp::sabs(g) >= one,
                crate::fp::sabs(one) == one,
        ;
        vstd::arithmetic::div_mod::lemma_div_is_ordered(one * one, one * g, one);
        vstd::arithmetic::div_mod::lemma_div_by_multiple(one, one);
    }
    assert(ssub(one, smul(smul(ssub(one, 0), ssub(one, 0)), g)) <= 0);
}

/// The repetition-code flip probability, executable form.
fn rep_flip_prob(phase: i64, p_t1: i64, gate_err: i64) -> (r: i64)
    ensures
        r == srep_flip_prob(phase as int, p_t1 as int, gate_err as int),
{
    let p_phase = fdivi(fsub(FP_ONE, cos_fp(phase)), 2);
    p01(
        fsub(
            FP_ONE,
            fmul(fmul(fsub(FP_ONE, p_phase), fsub(FP_ONE, p_t1)), fsub(FP_ONE, gate_err)),
        ),
    )
}

/// The surface-code per-cycle flip probability: the dephasing term alone.
pub open spec fn ssurf_flip_prob(phase: int) -> int {
    sp01(sdivi(ssub(FP_ONE as int, scos(phase)), 2))
}

/// The surface-code flip probability, executable form; exactly zero for a
/// zero phase.
fn surf_flip_prob(phase: i64) -> (r: i64)
    ensures
        r == ssurf_flip_prob(phase as int),
        phase == 0 ==> r == 0,
{
    proof {
        if phase == 0 {
            crate::trig::lemma_scos_zero();
            vstd::arithmetic::div_mod::lemma_div_of0(2);
        }
    }
    p01(fdivi(fsub(FP_ONE, cos_fp(phase)), 2))
}

/// Add an injected resonance line (a coherent tone of the given frequency,
/// amplitude and phase offset) to every trace, in place.
fn add_tone(traces: &mut Vec<Vec<i64>>, omega: i64, amp: i64, phase0: i64)
    ensures
        final(traces)@.len() == old(traces)@.len(),
        forall|q: int|
            0 <= q < final(traces)@.len() ==> (#[trigger] final(traces)@[q]@.len()) == old(
                traces,
            )@[q]@.len(),
{
    let mut q: usize = 0;
    while q < traces.len()
        invariant
            q <= traces@.len(),
            traces@.len() == old(traces)@.len(),
            forall|k: int|
                0 <= k < traces@.len() ==> (#[trigger] traces@[k]@.len()) == old(
                    traces,
                )@[k]@.len(),
        decreases traces@.len() - q,
    {
        let n = traces[q].len();
        let mut t: usize = 0;
        while t < n
            invariant
                t <= n,
                q < traces@.len(),
                traces@.len() == old(traces)@.len(),
                n == traces@[q as int]@.len(),
                forall|k: int|
                    0 <= k < traces@.len() ==> (#[trigger] traces@[k]@.len()) == old(
                        traces,
                    )@[k]@.len(),
            decreases n - t,
        {
            let arg = fadd(fmul(omega, fp_from_int(t as i64)), phase0);
            let v = fadd(traces[q][t], fmul(amp, cos_fp(arg)));
            traces[q][t] = v;
            t = t + 1;
        }
        q = q + 1;
    }
}

/// Monte-Carlo simulation of a distance-`d` repetition code under the
/// given pulse sequence. The distance must be odd (majority correction),
/// within the supported range, the cycle length positive, the duration and
/// trial count within the supported ranges: anything else is an invalid
/// argument, reported before any trial work. The reported rates and gain
/// are exact quotients of the returned counts.
#[verifier::rlimit(100)]
pub fn simulate_repetition_code(
    distance: u64,
    pulse_seq: &Vec<u64>,
    noise_amp: i64,
    total_time: u64,
    measure_interval: u64,
    trials: u64,
    cfg: &QecConfig,
    rng: &mut SfeRng,
) -> (r: Result<QECResult, SfeError>)
    ensures
        r is Ok <==> (distance % 2 == 1 && 1 <= distance <= MAX_DISTANCE && 1 <= measure_interval
            <= MAX_STEPS && 2 <= total_time <= MAX_STEPS && trials <= MAX_TRIALS),
        r matches Ok(res) ==> rates_consistent(res) && res.distance == distance && res.trials
            == trials && res.physical_slots == trials * distance * (if total_time
            / measure_interval == 0 {
            1
        } else {
            total_time / measure_interval
        }),
        (noise_amp == 0 && cfg.gate_err <= 0 && cfg.t1_steps <= 0 && r is Ok) ==> (r matches Ok(
            res,
        ) ==> res.physical_flips == 0 && res.physical_error_rate == 0),
{
    if distance % 2 == 0 || distance < 1 || distance > MAX_DISTANCE || measure_interval < 1
        || measure_interval > MAX_STEPS || total_time < 2 || total_time > MAX_STEPS || trials
        > MAX_TRIALS {
        return Err(SfeError::InvalidArgument);
    }
    let ghost quiet = noise_amp == 0 && cfg.gate_err <= 0 && cfg.t1_steps <= 0;
    let num_cycles = total_time / measure_interval;
    let dt_cycle = fp_from_int(measure_interval as i64);
    let p_t1 = fsub(FP_ONE, exp_neg_fp(fdiv(dt_cycle, cfg.t1_steps)));
    proof {
        if cfg.t1_steps <= 0 {
            // a disabled relaxation channel: the quotient degenerates to
            // zero, so the per-cycle relaxation probability is zero
            assert(crate::fp::sdiv(dt_cycle as int, cfg.t1_steps as int) <= 0);
            assert(p_t1 == 0);
        }
    }
    let member = build_member(pulse_seq, measure_interval);
    let gen = match crate::noise::PinkNoiseGenerator::new_with_params(
        total_time,
        cfg.alpha,
        cfg.scale,
    ) {
        Ok(g) => g,
        Err(_) => {
            proof {
                assert(false);
            }
            return Err(SfeError::InvalidArgument);
        },
    };
    let mut logical_errors: u64 = 0;
    let mut phys_errors: u64 = 0;
    let mut trial: u64 = 0;
    while trial < trials
        invariant
            trial <= trials,
            trials <= MAX_TRIALS,
            1 <= distance <= MAX_DISTANCE,
            1 <= measure_interval <= MAX_STEPS,
            2 <= total_time <= MAX_STEPS,
            num_cycles <= MAX_STEPS,
            num_cycles == total_time / measure_interval,
            member@.len() == measure_interval,
            gen.wf(),
            gen.steps == total_time,
            logical_errors <= trial,
            phys_errors <= trial * distance * num_cycles,
            quiet == (noise_amp == 0 && cfg.gate_err <= 0 && cfg.t1_steps <= 0),
            quiet ==> p_t1 == 0,
            quiet ==> phys_errors == 0,
        decreases trials - trial,
    {
        let mut traces = correlated_traces(&gen, distance, cfg.rho, rng);
        if cfg.tone_omega > 0 && cfg.tone_amp > 0 {
            let ph0 = fmul(uniform_fp(rng), crate::trig::TWO_PI_FP);
            add_tone(&mut traces, cfg.tone_omega, cfg.tone_amp, ph0);
        }
        let mut states: Vec<bool> = Vec::new();
        let mut obs: Vec<Vec<bool>> = Vec::new();
        let mut pfl: Vec<Vec<i64>> = Vec::new();
        let mut q: u64 = 0;
        while q < distance
            invariant
                q <= distance,
                states@.len() == q,
                obs@.len() == q,
                pfl@.len() == q,
                forall|k: int| 0 <= k < q ==> (#[trigger] obs@[k]@.len()) == 0,
                forall|k: int| 0 <= k < q ==> (#[trigger] pfl@[k]@.len()) == 0,
            decreases distance - q,
        {
            states.push(false);
            obs.push(Vec::new());
            pfl.push(Vec::new());
            q = q + 1;
        }
        let mut trial_flips: u64 = 0;
        let mut cycle: u64 = 0;
        while cycle < num_cycles
            invariant
                cycle <= num_cycles,
                num_cycles <= MAX_STEPS,
                num_cycles == total_time / measure_interval,
                1 <= measure_interval <= MAX_STEPS,
                2 <= total_time <= MAX_STEPS,
                1 <= distance <= MAX_DISTANCE,
                member@.len() == measure_interval,
                traces@.len() == distance,
                forall|k: int|
                    0 <= k < traces@.len() ==> (#[trigger] traces@[k]@.len()) == total_time,
                states@.len() == distance,
                obs@.len() == distance,
                pfl@.len() == distance,
                forall|k: int| 0 <= k < distance ==> (#[trigger] obs@[k]@.len()) == cycle,
                forall|k: int| 0 <= k < distance ==> (#[trigger] pfl@[k]@.len()) == cycle,
                trial_flips <= cycle * distance,
                quiet == (noise_amp == 0 && cfg.gate_err <= 0 && cfg.t1_steps <= 0),
                quiet ==> p_t1 == 0,
                quiet ==> trial_flips == 0,
            decreases num_cycles - cycle,
        {
            proof {
                assert(cycle * measure_interval + measure_interval <= total_time) by {
                    assert((cycle + 1) * measure_interval <= num_cycles * measure_interval)
                        by (nonlinear_arith)
                        requires
                            cycle + 1 <= num_cycles,
                            measure_interval >= 1,
                    ;
                    assert(num_cycles * measure_interval <= total_time) by {
                        vstd::arithmetic::div_mod::lemma_fundamental_div_mod(
                            total_time as int,
                            measure_interval as int,
                        );
                        assert(total_time as int % measure_interval as int >= 0);
                    }
                    assert((cycle + 1) * measure_interval == cycle * measure_interval
                        + measure_interval) by (nonlinear_arith);
                }
            }
            let start = cycle * measure_interval;
            let mut q: u64 = 0;
            while q < distance
                invariant
                    q <= distance,
                    1 <= distance <= MAX_DISTANCE,
                    member@.len() == measure_interval,
                    traces@.len() == distance,
                    forall|k: int|
                        0 <= k < traces@.len() ==> (#[trigger] traces@[k]@.len()) == total_time,
                    start + measure_interval <= total_time,
                    states@.len() == distance,
                    obs@.len() == distance,
                    pfl@.len() == distance,
                    forall|k: int|
                        0 <= k < distance ==> (#[trigger] pfl@[k]@.len()) == cycle + (if k
                            < q {
                            1int
                        } else {
                            0int
                        }),
                    forall|k: int| 0 <= k < distance ==> (#[trigger] obs@[k]@.len()) == cycle,
                    trial_flips <= cycle * distance + q,
                    cycle <= MAX_STEPS,
                    start + measure_interval <= total_time,
                    total_time <= 0x100000,
                    quiet == (noise_amp == 0 && cfg.gate_err <= 0 && cfg.t1_steps <= 0),
                    quiet ==> p_t1 == 0,
                    quiet ==> trial_flips == 0,
                decreases distance - q,
            {
                let phase = cycle_phase(
                    &traces[q as usize],
                    &member,
                    noise_amp,
                    start,
                    measure_interval,
                );
                proof {
                    if quiet {
                        lemma_scphase_zero(
                            traces@[q as int]@,
                            member@,
                            start as int,
                            measure_interval as int,
                        );
                        lemma_rep_flip_prob_quiet(cfg.gate_err as int);
                    }
                }
                let p_total = rep_flip_prob(phase, p_t1, cfg.gate_err);
                let ghost pfl0 = pfl@;
                let row = &mut pfl[q as usize];
                row.push(p_total);
                if coin(rng, p_total) {
                    let s = states[q as usize];
                    states[q as usize] = !s;
                    proof {
                        assert(trial_flips < 0x8000_0000_0000u64) by (nonlinear_arith)
                            requires
                                trial_flips <= cycle * distance + q,
                                0 <= cycle <= MAX_STEPS,
                                0 <= q < distance <= MAX_DISTANCE,
                        ;
                    }
                    trial_flips = trial_flips + 1;
                }
                q = q + 1;
            }
            let mut q2: u64 = 0;
            while q2 < distance
                invariant
                    q2 <= distance,
                    1 <= distance <= MAX_DISTANCE,
                    states@.len() == distance,
                    obs@.len() == distance,
                    pfl@.len() == distance,
                    forall|k: int| 0 <= k < distance ==> (#[trigger] pfl@[k]@.len()) == cycle + 1,
                    forall|k: int|
                        0 <= k < distance ==> (#[trigger] obs@[k]@.len()) == cycle + (if k
                            < q2 {
                            1int
                        } else {
                            0int
                        }),
                decreases distance - q2,
            {
                let mut meas = states[q2 as usize];
                if coin(rng, cfg.meas_err) {
                    meas = !meas;
                }
                let row = &mut obs[q2 as usize];
                row.push(meas);
                q2 = q2 + 1;
            }
            proof {
                assert(trial_flips <= cycle * distance + distance);
                assert((cycle + 1) * distance == cycle * distance + distance)
                    by (nonlinear_arith);
            }
            cycle = cycle + 1;
        }
        let mut logical_failed = false;
        if num_cycles > 0 {
            let mut final_errors: u64 = 0;
            let mut q3: u64 = 0;
            while q3 < distance
                invariant
                    q3 <= distance,
                    obs@.len() == distance,
                    pfl@.len() == distance,
                    forall|k: int| 0 <= k < distance ==> (#[trigger] obs@[k]@.len()) == num_cycles,
                    forall|k: int| 0 <= k < distance ==> (#[trigger] pfl@[k]@.len()) == num_cycles,
                    final_errors <= q3,
                decreases distance - q3,
            {
                if viterbi_final_state(&obs[q3 as usize], &pfl[q3 as usize], cfg.meas_err) {
                    final_errors = final_errors + 1;
                }
                q3 = q3 + 1;
            }
            if final_errors > distance / 2 {
                logical_failed = true;
            }
        }
        if logical_failed {
            logical_errors = logical_errors + 1;
        }
        proof {
            assert(trial_flips <= num_cycles * distance);
            assert(phys_errors + trial_flips <= trial * distance * num_cycles + num_cycles
                * distance);
            assert((trial + 1) * distance * num_cycles == trial * distance * num_cycles
                + distance * num_cycles) by (nonlinear_arith);
            assert(num_cycles * distance == distance * num_cycles) by (nonlinear_arith);
            assert((trial + 1) * distance * num_cycles <= 1000000 * 99 * 0x100000)
                by (nonlinear_arith)
                requires
                    0 <= trial + 1 <= 1000000,
                    0 <= distance <= 99,
                    0 <= num_cycles <= 0x100000,
            ;
            assert(0 <= trial * distance * num_cycles) by (nonlinear_arith)
                requires
                    0 <= trial,
                    0 <= distance,
                    0 <= num_cycles,
            ;
        }
        phys_errors = phys_errors + trial_flips;
        trial = trial + 1;
    }
    let cyc_for_slots: u64 = if num_cycles == 0 {
        1
    } else {
        num_cycles
    };
    proof {
        assert(trials * distance * cyc_for_slots <= 1000000 * 99 * 0x100000) by (nonlinear_arith)
            requires
                0 <= trials <= 1000000,
                1 <= distance <= 99,
                1 <= cyc_for_slots <= 0x100000,
        ;
        assert(phys_errors <= trials * distance * cyc_for_slots) by (nonlinear_arith)
            requires
                phys_errors <= trials * distance * num_cycles,
                0 <= num_cycles <= cyc_for_slots,
                trials >= 0,
                distance >= 1,
        ;
        assert(trials * distance <= 1000000 * 99) by (nonlinear_arith)
            requires
                0 <= trials <= 1000000,
                1 <= distance <= 99,
        ;
    }
    proof {
        if quiet {
            vstd::arithmetic::div_mod::lemma_div_of0(2);
        }
    }
    let total_slots: u64 = trials * distance * cyc_for_slots;
    let phy_rate = rate_of(phys_errors, total_slots);
    let log_rate = rate_of(logical_errors, trials);
    let gain = if log_rate > 0 {
        fdiv(phy_rate, log_rate)
    } else {
        -FP_ONE
    };
    Ok(
        QECResult {
            distance,
            physical_flips: phys_errors,
            physical_slots: total_slots,
            logical_failures: logical_errors,
            trials,
            physical_error_rate: phy_rate,
            logical_error_rate: log_rate,
            gain,
        },
    )
}

/// Data qubit `q` belongs to stabilizer `s` of the fixed nine-qubit patch
/// (four plaquettes of four data qubits each).
pub open spec fn sstab(s: int, q: int) -> bool {
    if s == 0 {
        q == 0 || q == 1 || q == 3 || q == 4
    } else if s == 1 {
        q == 1 || q == 2 || q == 4 || q == 5
    } else if s == 2 {
        q == 3 || q == 4 || q == 6 || q == 7
    } else if s == 3 {
        q == 4 || q == 5 || q == 7 || q == 8
    } else {
        false
    }
}

/// Stabilizer membership, executable form.
fn stab_has(s: u64, q: u64) -> (r: bool)
    ensures
        r == sstab(s as int, q as int),
{
    if s == 0 {
        q == 0 || q == 1 || q == 3 || q == 4
    } else if s == 1 {
        q == 1 || q == 2 || q == 4 || q == 5
    } else if s == 2 {
        q == 3 || q == 4 || q == 6 || q == 7
    } else if s == 3 {
        q == 4 || q == 5 || q == 7 || q == 8
    } else {
        false
    }
}

/// Monte-Carlo simulation of the fixed nine-qubit surface-code patch
/// (four stabilizers, logical operator over one three-qubit string),
/// decoded by the single-flip hypothesis whose syndrome is nearest the
/// observed final syndrome. The per-cycle error model is dephasing alone —
/// deliberately different from the repetition code's composed model.
///
/// With zero noise amplitude and ideal measurement no flip can occur: the
/// run reports exactly zero physical and logical errors, whatever the
/// random draws.
#[verifier::rlimit(100)]
pub fn simulate_surface_code_d3(
    pulse_seq: &Vec<u64>,
    noise_amp: i64,
    total_time: u64,
    measure_interval: u64,
    trials: u64,
    cfg: &QecConfig,
    rng: &mut SfeRng,
) -> (r: Result<QECResult, SfeError>)
    ensures
        r is Ok <==> (1 <= measure_interval <= MAX_STEPS && 2 <= total_time <= MAX_STEPS && trials
            <= MAX_TRIALS),
        r matches Ok(res) ==> rates_consistent(res) && res.distance == 3 && res.trials == trials
            && res.physical_slots == trials * 9 * (if total_time / measure_interval == 0 {
            1
        } else {
            total_time / measure_interval
        }),
        (noise_amp == 0 && r is Ok) ==> (r matches Ok(res) ==> res.physical_flips == 0
            && res.physical_error_rate == 0),
        (noise_amp == 0 && cfg.meas_err <= 0 && r is Ok) ==> (r matches Ok(res)
            ==> res.logical_failures == 0 && res.logical_error_rate == 0),
{
    if measure_interval < 1 || measure_interval > MAX_STEPS || total_time < 2 || total_time
        > MAX_STEPS || trials > MAX_TRIALS {
        return Err(SfeError::InvalidArgument);
    }
    let ghost amp_zero = noise_amp == 0;
    let ghost ideal = noise_amp == 0 && cfg.meas_err <= 0;
    let num_cycles = total_time / measure_interval;
    let member = build_member(pulse_seq, measure_interval);
    let gen = match crate::noise::PinkNoiseGenerator::new_with_params(
        total_time,
        cfg.alpha,
        cfg.scale,
    ) {
        Ok(g) => g,
        Err(_) => {
            proof {
                assert(false);
            }
            return Err(SfeError::InvalidArgument);
        },
    };
    let data_qubits: u64 = 9;
    let mut logical_errors: u64 = 0;
    let mut phys_errors: u64 = 0;
    let mut trial: u64 = 0;
    while trial < trials
        invariant
            trial <= trials,
            trials <= MAX_TRIALS,
            1 <= measure_interval <= MAX_STEPS,
            2 <= total_time <= MAX_STEPS,
            num_cycles <= MAX_STEPS,
            num_cycles == total_time / measure_interval,
            member@.len() == measure_interval,
            data_qubits == 9,
            gen.wf(),
            gen.steps == total_time,
            logical_errors <= trial,
            phys_errors <= trial * 9 * num_cycles,
            amp_zero == (noise_amp == 0),
            ideal == (noise_amp == 0 && cfg.meas_err <= 0),
            amp_zero ==> phys_errors == 0,
            ideal ==> logical_errors == 0,
        decreases trials - trial,
    {
        let mut traces = correlated_traces(&gen, data_qubits, cfg.rho, rng);
        if cfg.tone_omega > 0 && cfg.tone_amp > 0 {
            let ph0 = fmul(uniform_fp(rng), crate::trig::TWO_PI_FP);
            add_tone(&mut traces, cfg.tone_omega, cfg.tone_amp, ph0);
        }
        let mut z_state: Vec<bool> = Vec::new();
        let mut q0: u64 = 0;
        while q0 < data_qubits
            invariant
                q0 <= data_qubits,
                z_state@.len() == q0,
                forall|k: int| 0 <= k < q0 ==> !(#[trigger] z_state@[k]),
            decreases data_qubits - q0,
        {
            z_state.push(false);
            q0 = q0 + 1;
        }
        let mut final_synd: Vec<bool> = Vec::new();
        let mut s0: u64 = 0;
        while s0 < 4
            invariant
                s0 <= 4,
                final_synd@.len() == s0,
                forall|k: int| 0 <= k < s0 ==> !(#[trigger] final_synd@[k]),
            decreases 4 - s0,
        {
            final_synd.push(false);
            s0 = s0 + 1;
        }
        let mut trial_flips: u64 = 0;
        let mut cycle: u64 = 0;
        while cycle < num_cycles
            invariant
                cycle <= num_cycles,
                num_cycles <= MAX_STEPS,
                num_cycles == total_time / measure_interval,
                1 <= measure_interval <= MAX_STEPS,
                2 <= total_time <= 0x100000,
                member@.len() == measure_interval,
                traces@.len() == 9,
                forall|k: int|
                    0 <= k < traces@.len() ==> (#[trigger] traces@[k]@.len()) == total_time,
                z_state@.len() == 9,
                final_synd@.len() == 4,
                trial_flips <= cycle * 9,
                amp_zero == (noise_amp == 0),
                ideal == (noise_amp == 0 && cfg.meas_err <= 0),
                amp_zero ==> trial_flips == 0,
                amp_zero ==> forall|k: int| 0 <= k < 9 ==> !(#[trigger] z_state@[k]),
                ideal ==> forall|k: int| 0 <= k < 4 ==> !(#[trigger] final_synd@[k]),
            decreases num_cycles - cycle,
        {
            proof {
                assert(cycle * measure_interval + measure_interval <= total_time) by {
                    assert((cycle + 1) * measure_interval <= num_cycles * measure_interval)
                        by (nonlinear_arith)
                        requires
                            cycle + 1 <= num_cycles,
                            measure_interval >= 1,
                    ;
                    assert(num_cycles * measure_interval <= total_time) by {
                        vstd::arithmetic::div_mod::lemma_fundamental_div_mod(
                            total_time as int,
                            measure_interval as int,
                        );
                        assert(total_time as int % measure_interval as int >= 0);
                    }
                    assert((cycle + 1) * measure_interval == cycle * measure_interval
                        + measure_interval) by (nonlinear_arith);
                }
            }
            let start = cycle * measure_interval;
            let mut q: u64 = 0;
            while q < 9
                invariant
                    q <= 9,
                    member@.len() == measure_interval,
                    traces@.len() == 9,
                    forall|k: int|
                        0 <= k < traces@.len() ==> (#[trigger] traces@[k]@.len()) == total_time,
                    start + measure_interval <= total_time,
                    total_time <= 0x100000,
                    z_state@.len() == 9,
                    trial_flips <= cycle * 9 + q,
                    cycle <= MAX_STEPS,
                    amp_zero == (noise_amp == 0),
                    amp_zero ==> trial_flips == 0,
                    amp_zero ==> forall|k: int| 0 <= k < 9 ==> !(#[trigger] z_state@[k]),
                decreases 9 - q,
            {
                let phase = cycle_phase(
                    &traces[q as usize],
                    &member,
                    noise_amp,
                    start,
                    measure_interval,
                );
                proof {
                    if amp_zero {
                        lemma_scphase_zero(
                            traces@[q as int]@,
                            member@,
                            start as int,
                            measure_interval as int,
                        );
                    }
                }
                let p_z = surf_flip_prob(phase);
                if coin(rng, p_z) {
                    let s = z_state[q as usize];
                    z_state[q as usize] = !s;
                    proof {
                        assert(trial_flips < 0x8000_0000_0000u64) by (nonlinear_arith)
                            requires
                                trial_flips <= cycle * 9 + q,
                                0 <= cycle <= MAX_STEPS,
                                0 <= q < 9,
                        ;
                    }
                    trial_flips = trial_flips + 1;
                }
                q = q + 1;
            }
            let mut s: u64 = 0;
            while s < 4
                invariant
                    s <= 4,
                    z_state@.len() == 9,
                    final_synd@.len() == 4,
                    amp_zero == (noise_amp == 0),
                    ideal == (noise_amp == 0 && cfg.meas_err <= 0),
                    amp_zero ==> forall|k: int| 0 <= k < 9 ==> !(#[trigger] z_state@[k]),
                    ideal ==> forall|k: int| 0 <= k < 4 ==> !(#[trigger] final_synd@[k]),
                decreases 4 - s,
            {
                let mut v = false;
                let mut qi: u64 = 0;
                while qi < 9
                    invariant
                        qi <= 9,
                        z_state@.len() == 9,
                        amp_zero == (noise_amp == 0),
                        amp_zero ==> forall|k: int| 0 <= k < 9 ==> !(#[trigger] z_state@[k]),
                        amp_zero ==> !v,
                    decreases 9 - qi,
                {
                    if stab_has(s, qi) {
                        if z_state[qi as usize] {
                            v = !v;
                        }
                    }
                    qi = qi + 1;
                }
                let mut meas = v;
                if coin(rng, cfg.meas_err) {
                    meas = !meas;
                }
                // only the last cycle's syndrome is used by the decoder
                final_synd[s as usize] = meas;
                s = s + 1;
            }
            proof {
                assert((cycle + 1) * 9 == cycle * 9 + 9) by (nonlinear_arith);
            }
            cycle = cycle + 1;
        }
        // minimum-distance decoding: the null hypothesis, then one
        // single-qubit flip hypothesis per data qubit
        let mut best_is_null = true;
        let mut best_qubit: u64 = 0;
        let mut best_dist: u64 = 0;
        let mut s2: u64 = 0;
        while s2 < 4
            invariant
                s2 <= 4,
                final_synd@.len() == 4,
                best_dist <= s2,
                ideal ==> forall|k: int| 0 <= k < 4 ==> !(#[trigger] final_synd@[k]),
                ideal == (noise_amp == 0 && cfg.meas_err <= 0),
                ideal ==> best_dist == 0,
            decreases 4 - s2,
        {
            if final_synd[s2 as usize] {
                best_dist = best_dist + 1;
            }
            s2 = s2 + 1;
        }
        let mut cand: u64 = 0;
        while cand < 9
            invariant
                cand <= 9,
                final_synd@.len() == 4,
                z_state@.len() == 9,
                amp_zero == (noise_amp == 0),
                ideal == (noise_amp == 0 && cfg.meas_err <= 0),
                ideal ==> best_dist == 0 && best_is_null,
                ideal ==> forall|k: int| 0 <= k < 4 ==> !(#[trigger] final_synd@[k]),
                amp_zero ==> forall|k: int| 0 <= k < 9 ==> !(#[trigger] z_state@[k]),
            decreases 9 - cand,
        {
            let mut d: u64 = 0;
            let mut s3: u64 = 0;
            while s3 < 4
                invariant
                    s3 <= 4,
                    d <= s3,
                    final_synd@.len() == 4,
                    ideal == (noise_amp == 0 && cfg.meas_err <= 0),
                    ideal ==> forall|k: int| 0 <= k < 4 ==> !(#[trigger] final_synd@[k]),
                    ideal ==> d == (if s3 > 0 && sstab(0, cand as int) {
                        1int
                    } else {
                        0int
                    }) + (if s3 > 1 && sstab(1, cand as int) {
                        1int
                    } else {
                        0int
                    }) + (if s3 > 2 && sstab(2, cand as int) {
                        1int
                    } else {
                        0int
                    }) + (if s3 > 3 && sstab(3, cand as int) {
                        1int
                    } else {
                        0int
                    }),
                decreases 4 - s3,
            {
                let pat = stab_has(s3, cand);
                if pat != final_synd[s3 as usize] {
                    d = d + 1;
                }
                s3 = s3 + 1;
            }
            proof {
                if ideal {
                    // every data qubit of the patch touches a stabilizer,
                    // so a flip hypothesis never matches a clean syndrome
                    assert(sstab(0, cand as int) || sstab(1, cand as int) || sstab(
                        2,
                        cand as int,
                    ) || sstab(3, cand as int));
                    assert(d >= 1);
                }
            }
            if d < best_dist {
                best_dist = d;
                best_is_null = false;
                best_qubit = cand;
            }
            cand = cand + 1;
        }
        if !best_is_null {
            let bq = best_qubit as usize;
            if bq < 9 {
                let s = z_state[bq];
                z_state[bq] = !s;
            }
        }
        let mut logical_flip = false;
        if z_state[1] {
            logical_flip = !logical_flip;
        }
        if z_state[4] {
            logical_flip = !logical_flip;
        }
        if z_state[7] {
            logical_flip = !logical_flip;
        }
        if num_cycles == 0 {
            logical_flip = false;
        }
        if logical_flip {
            logical_errors = logical_errors + 1;
        }
        proof {
            assert(trial_flips <= num_cycles * 9);
            assert((trial + 1) * 9 * num_cycles == trial * 9 * num_cycles + 9 * num_cycles)
                by (nonlinear_arith);
            assert(num_cycles * 9 == 9 * num_cycles) by (nonlinear_arith);
            assert((trial + 1) * 9 * num_cycles <= 1000000 * 9 * 0x100000) by (nonlinear_arith)
                requires
                    0 <= trial + 1 <= 1000000,
                    0 <= num_cycles <= 0x100000,
            ;
            assert(0 <= trial * 9 * num_cycles) by (nonlinear_arith)
                requires
                    0 <= trial,
                    0 <= num_cycles,
            ;
        }
        phys_errors = phys_errors + trial_flips;
        trial = trial + 1;
    }
    let cyc_for_slots: u64 = if num_cycles == 0 {
        1
    } else {
        num_cycles
    };
    proof {
        assert(trials * 9 * cyc_for_slots <= 1000000 * 9 * 0x100000) by (nonlinear_arith)
            requires
                0 <= trials <= 1000000,
                1 <= cyc_for_slots <= 0x100000,
        ;
        assert(trials * 9 <= 1000000 * 9) by (nonlinear_arith)
            requires
                0 <= trials <= 1000000,
        ;
        assert(phys_errors <= trials * 9 * cyc_for_slots) by (nonlinear_arith)
            requires
                phys_errors <= trials * 9 * num_cycles,
                0 <= num_cycles <= cyc_for_slots,
                trials >= 0,
        ;
        if ideal {
            vstd::arithmetic::div_mod::lemma_div_of0(2);
        }
    }
    let total_slots: u64 = trials * 9 * cyc_for_slots;
    let phy_rate = rate_of(phys_errors, total_slots);
    let log_rate = rate_of(logical_errors, trials);
    let gain = if log_rate > 0 {
        fdiv(phy_rate, log_rate)
    } else {
        -FP_ONE
    };
    Ok(
        QECResult {
            distance: 3,
            physical_flips: phys_errors,
            physical_slots: total_slots,
            logical_failures: logical_errors,
            trials,
            physical_error_rate: phy_rate,
            logical_error_rate: log_rate,
            gain,
        },
    )
}

} // verus!
