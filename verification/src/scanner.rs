//! Grid scan for resonance sweet spots.
//!
//! A candidate resonance mode (an injected coherent line, given by its
//! simulation-frame frequency and amplitude) is evaluated by running the
//! repetition-code Monte-Carlo simulation with the line injected and
//! comparing the achieved gain against a baseline measured without it. A
//! grid scan sweeps a rectangle of modes and reports one evidence row per
//! grid point — exactly `grid_size * grid_size` rows — and each row's
//! sweet-spot flag is precisely the statement that its improvement over
//! the baseline exceeds the threshold.

use vstd::prelude::*;
use crate::SfeError;
use crate::fp::{FP_ONE, sclamp, sadd, ssub, smul, sdiv, sdivi, fadd, fsub, fmul, fdiv, fdivi,
    fp_from_int};
use crate::noise::MAX_STEPS;
use crate::qec::{QecConfig, MAX_DISTANCE, MAX_TRIALS, simulate_repetition_code};
use crate::rng::SfeRng;

verus! {

/// The sweet-spot threshold: an improvement above 1.1 over the baseline.
pub const SWEET_SPOT_THRESHOLD_FP: i64 = 4724464026;

/// Fallback baseline gain (0.5) used when no baseline was measured.
pub const DEFAULT_BASELINE_FP: i64 = 2147483648;

/// A candidate resonance mode in simulation units: angular frequency per
/// step and amplitude.
#[derive(Clone, Copy)]
pub struct SuppressonMode {
    pub omega_sim: i64,
    pub amplitude_sim: i64,
}

/// One scanned grid point: the mode, the gain the simulation achieved with
/// the mode injected, the improvement relative to the baseline, and the
/// sweet-spot verdict.
#[derive(Clone, Copy)]
pub struct SuppressonEvidence {
    pub omega_sim: i64,
    pub amplitude_sim: i64,
    pub qec_gain: i64,
    pub improvement_over_baseline: i64,
    pub is_sweet_spot: bool,
}

/// The improvement of a gain over a baseline: their ratio, with an
/// explicit guard — a zero baseline yields the sentinel zero rather than
/// propagating an undefined quotient.
pub open spec fn simprovement(gain: int, baseline: int) -> int {
    if baseline == 0 {
        0
    } else {
        sdiv(gain, baseline)
    }
}

/// The baseline a scan compares against: the measured gain, or its
/// default when none was measured yet.
pub open spec fn sbaseline_of(sc: SuppressonScanner) -> int {
    match sc.baseline_gain {
        Some(b) => b as int,
        None => DEFAULT_BASELINE_FP as int,
    }
}

/// The linear interpolation of a scan axis at slot `k` of a grid of `g`:
/// `lo + (hi - lo) * k / (g - 1)`.
pub open spec fn slerp(lo: int, hi: int, k: int, g: int) -> int {
    sadd(lo, sdivi(smul(ssub(hi, lo), sclamp(k * (FP_ONE as int))), g - 1))
}

/// An evidence row is internally consistent: its flag states exactly that
/// its improvement exceeds the threshold.
pub open spec fn evidence_consistent(e: SuppressonEvidence) -> bool {
    e.is_sweet_spot == (e.improvement_over_baseline > SWEET_SPOT_THRESHOLD_FP)
}

/// Rows sorted by gain, best first.
pub open spec fn sorted_by_gain_desc(s: Seq<SuppressonEvidence>) -> bool {
    forall|i: int, j: int| 0 <= i < j < s.len() ==> s[i].qec_gain >= s[j].qec_gain
}

/// The scanner: the fixed simulation shape (duration, code distance,
/// noise amplitude, cycle length, trial count, simulator knobs) and the
/// baseline gain once measured.
pub struct SuppressonScanner {
    pub steps: u64,
    pub qec_distance: u64,
    pub noise_amp: i64,
    pub measure_interval: u64,
    pub trials: u64,
    pub base_cfg: QecConfig,
    pub baseline_gain: Option<i64>,
}

impl SuppressonScanner {
    /// The simulation shape is valid for the repetition code.
    pub open spec fn wf(self) -> bool {
        &&& 2 <= self.steps <= MAX_STEPS
        &&& self.qec_distance % 2 == 1
        &&& 1 <= self.qec_distance <= MAX_DISTANCE
        &&& 1 <= self.measure_interval <= MAX_STEPS
        &&& self.trials <= MAX_TRIALS
    }

    /// A scanner over the given shape; the cycle length and trial count
    /// take their customary defaults. Success is owed exactly when the
    /// shape is valid.
    pub fn new(steps: u64, qec_distance: u64, noise_amp: i64, base_cfg: &QecConfig) -> (r: Result<
        SuppressonScanner,
        SfeError,
    >)
        ensures
            r is Ok <==> (2 <= steps <= MAX_STEPS && qec_distance % 2 == 1 && 1 <= qec_distance
                <= MAX_DISTANCE),
            r matches Ok(sc) ==> sc.wf() && sc.steps == steps && sc.qec_distance == qec_distance
                && sc.noise_amp == noise_amp && sc.baseline_gain is None && sc.measure_interval
                == 50 && sc.trials == 1000,
    {
        if steps < 2 || steps > MAX_STEPS || qec_distance % 2 == 0 || qec_distance < 1
            || qec_distance > MAX_DISTANCE {
            return Err(SfeError::InvalidArgument);
        }
        Ok(
            SuppressonScanner {
                steps,
                qec_distance,
                noise_amp,
                measure_interval: 50,
                trials: 1000,
                base_cfg: base_cfg.clone(),
                baseline_gain: None,
            },
        )
    }

    /// Measure the baseline gain: one run with no injected mode. The
    /// result is remembered for later scans; nothing else changes.
    pub fn measure_baseline(&mut self, rng: &mut SfeRng) -> (r: i64)
        requires
            old(self).wf(),
        ensures
            final(self).wf(),
            final(self).baseline_gain == Some(r),
            final(self).steps == old(self).steps,
            final(self).qec_distance == old(self).qec_distance,
            final(self).noise_amp == old(self).noise_amp,
            final(self).measure_interval == old(self).measure_interval,
            final(self).trials == old(self).trials,
            final(self).base_cfg == old(self).base_cfg,
    {
        let mut cfg = self.base_cfg.clone();
        cfg.tone_omega = 0;
        cfg.tone_amp = 0;
        let empty: Vec<u64> = Vec::new();
        let res = simulate_repetition_code(
            self.qec_distance,
            &empty,
            self.noise_amp,
            self.steps,
            self.measure_interval,
            self.trials,
            &cfg,
            rng,
        );
        let gain = match res {
            Ok(out) => out.gain,
            Err(_) => {
                proof {
                    assert(false);
                }
                0
            },
        };
        self.baseline_gain = Some(gain);
        gain
    }

    /// Evaluate one mode: run the simulation with the line injected and
    /// compare against the remembered baseline (or its default). The
    /// returned row is consistent: its flag is exactly the threshold
    /// comparison on its improvement.
    pub fn scan_mode(&self, mode: &SuppressonMode, rng: &mut SfeRng) -> (r:
        SuppressonEvidence)
        requires
            self.wf(),
        ensures
            evidence_consistent(r),
            r.omega_sim == mode.omega_sim,
            r.amplitude_sim == mode.amplitude_sim,
            r.improvement_over_baseline == simprovement(r.qec_gain as int, sbaseline_of(*self)),
    {
        let mut cfg = self.base_cfg.clone();
        cfg.tone_omega = mode.omega_sim;
        cfg.tone_amp = mode.amplitude_sim;
        let empty: Vec<u64> = Vec::new();
        let res = simulate_repetition_code(
            self.qec_distance,
            &empty,
            self.noise_amp,
            self.steps,
            self.measure_interval,
            self.trials,
            &cfg,
            rng,
        );
        let gain = match res {
            Ok(out) => out.gain,
            Err(_) => {
                proof {
                    assert(false);
                }
                0
            },
        };
        let baseline = match self.baseline_gain {
            Some(b) => b,
            None => DEFAULT_BASELINE_FP,
        };
        let improvement = if baseline == 0 {
            0
        } else {
            fdiv(gain, baseline)
        };
        let is_sweet_spot = improvement > SWEET_SPOT_THRESHOLD_FP;
        SuppressonEvidence {
            omega_sim: mode.omega_sim,
            amplitude_sim: mode.amplitude_sim,
            qec_gain: gain,
            improvement_over_baseline: improvement,
            is_sweet_spot,
        }
    }

    /// Scan a `grid_size` by `grid_size` rectangle of modes, frequencies
    /// along one axis and amplitudes along the other, both linearly
    /// interpolated. Exactly one consistent evidence row is produced per
    /// grid point: `grid_size * grid_size` rows in all.
    pub fn grid_scan(
        &self,
        omega_min: i64,
        omega_max: i64,
        amp_min: i64,
        amp_max: i64,
        grid_size: u64,
        rng: &mut SfeRng,
    ) -> (r: Vec<SuppressonEvidence>)
        requires
            self.wf(),
            2 <= grid_size <= 64,
        ensures
            r@.len() == grid_size * grid_size,
            forall|k: int| 0 <= k < r@.len() ==> evidence_consistent(#[trigger] r@[k]),
            forall|k: int|
                0 <= k < r@.len() ==> (#[trigger] r@[k]).omega_sim == slerp(
                    omega_min as int,
                    omega_max as int,
                    k / (grid_size as int),
                    grid_size as int,
                ),
            forall|k: int|
                0 <= k < r@.len() ==> (#[trigger] r@[k]).amplitude_sim == slerp(
                    amp_min as int,
                    amp_max as int,
                    k % (grid_size as int),
                    grid_size as int,
                ),
            forall|k: int|
                0 <= k < r@.len() ==> (#[trigger] r@[k]).improvement_over_baseline == simprovement(
                    r@[k].qec_gain as int,
                    sbaseline_of(*self),
                ),
    {
        let d_omega = fsub(omega_max, omega_min);
        let d_amp = fsub(amp_max, amp_min);
        let mut out: Vec<SuppressonEvidence> = Vec::new();
        let mut i: u64 = 0;
        while i < grid_size
            invariant
                i <= grid_size,
                2 <= grid_size <= 64,
                self.wf(),
                d_omega == ssub(omega_max as int, omega_min as int),
                d_amp == ssub(amp_max as int, amp_min as int),
                out@.len() == i * grid_size,
                forall|k: int| 0 <= k < out@.len() ==> evidence_consistent(#[trigger] out@[k]),
                forall|k: int|
                    0 <= k < out@.len() ==> (#[trigger] out@[k]).omega_sim == slerp(
                        omega_min as int,
                        omega_max as int,
                        k / (grid_size as int),
                        grid_size as int,
                    ),
                forall|k: int|
                    0 <= k < out@.len() ==> (#[trigger] out@[k]).amplitude_sim == slerp(
                        amp_min as int,
                        amp_max as int,
                        k % (grid_size as int),
                        grid_size as int,
                    ),
                forall|k: int|
                    0 <= k < out@.len() ==> (#[trigger] out@[k]).improvement_over_baseline
                        == simprovement(out@[k].qec_gain as int, sbaseline_of(*self)),
            decreases grid_size - i,
        {
            let omega = fadd(omega_min, fdivi(fmul(d_omega, fp_from_int(i as i64)), grid_size - 1));
            let mut j: u64 = 0;
            while j < grid_size
                invariant
                    j <= grid_size,
                    i < grid_size,
                    2 <= grid_size <= 64,
                    self.wf(),
                    d_omega == ssub(omega_max as int, omega_min as int),
                    d_amp == ssub(amp_max as int, amp_min as int),
                    omega == slerp(omega_min as int, omega_max as int, i as int, grid_size as int),
                    out@.len() == i * grid_size + j,
                    forall|k: int| 0 <= k < out@.len() ==> evidence_consistent(#[trigger] out@[k]),
                    forall|k: int|
                        0 <= k < out@.len() ==> (#[trigger] out@[k]).omega_sim == slerp(
                            omega_min as int,
                            omega_max as int,
                            k / (grid_size as int),
                            grid_size as int,
                        ),
                    forall|k: int|
                        0 <= k < out@.len() ==> (#[trigger] out@[k]).amplitude_sim == slerp(
                            amp_min as int,
                            amp_max as int,
                            k % (grid_size as int),
                            grid_size as int,
                        ),
                    forall|k: int|
                        0 <= k < out@.len() ==> (#[trigger] out@[k]).improvement_over_baseline
                            == simprovement(out@[k].qec_gain as int, sbaseline_of(*self)),
                decreases grid_size - j,
            {
                let amp = fadd(amp_min, fdivi(fmul(d_amp, fp_from_int(j as i64)), grid_size - 1));
                let mode = SuppressonMode { omega_sim: omega, amplitude_sim: amp };
                let ev = self.scan_mode(&mode, rng);
                proof {
                    assert(i * grid_size + j + 1 <= 64 * 64 + 64) by (nonlinear_arith)
                        requires
                            0 <= i < grid_size <= 64,
                            0 <= j < grid_size <= 64,
                    ;
                    // the new slot's grid coordinates are recovered by
                    // division and remainder
                    vstd::arithmetic::div_mod::lemma_fundamental_div_mod_converse(
                        (i * grid_size + j) as int,
                        grid_size as int,
                        i as int,
                        j as int,
                    );
                }
                out.push(ev);
                j = j + 1;
            }
            proof {
                assert((i + 1) * grid_size == i * grid_size + grid_size) by (nonlinear_arith);
            }
            i = i + 1;
        }
        out
    }

    /// The sweet spots among a set of evidence rows, best gain first:
    /// every returned row is a sweet spot drawn from the input, every
    /// flagged input row appears in the result, and the result is sorted
    /// by gain in descending order.
    pub fn find_sweet_spots(&self, evidences: &Vec<SuppressonEvidence>) -> (r: Vec<
        SuppressonEvidence,
    >)
        ensures
            forall|k: int| 0 <= k < r@.len() ==> (#[trigger] r@[k]).is_sweet_spot,
            forall|k: int| 0 <= k < r@.len() ==> evidences@.contains(#[trigger] r@[k]),
            forall|k: int|
                0 <= k < evidences@.len() && (#[trigger] evidences@[k]).is_sweet_spot
                    ==> r@.contains(evidences@[k]),
            sorted_by_gain_desc(r@),
    {
        let mut picked: Vec<SuppressonEvidence> = Vec::new();
        let mut i: usize = 0;
        while i < evidences.len()
            invariant
                i <= evidences@.len(),
                forall|k: int| 0 <= k < picked@.len() ==> (#[trigger] picked@[k]).is_sweet_spot,
                forall|k: int|
                    0 <= k < picked@.len() ==> evidences@.contains(#[trigger] picked@[k]),
                forall|k: int|
                    0 <= k < i && (#[trigger] evidences@[k]).is_sweet_spot ==> picked@.contains(
                        evidences@[k],
                    ),
            decreases evidences@.len() - i,
        {
            let e = evidences[i];
            let ghost pre = picked@;
            if e.is_sweet_spot {
                proof {
                    assert(evidences@.contains(evidences@[i as int]));
                }
                picked.push(e);
            }
            proof {
                assert forall|k: int|
                    0 <= k < i + 1 && (#[trigger] evidences@[k]).is_sweet_spot
                        implies picked@.contains(evidences@[k]) by {
                    if k < i {
                        let w = choose|w: int| 0 <= w < pre.len() && pre[w] == evidences@[k];
                        assert(picked@[w] == evidences@[k]);
                    } else {
                        assert(picked@[picked@.len() - 1] == evidences@[k]);
                    }
                }
            }
            i = i + 1;
        }
        // selection sort, best gain first
        let mut a: usize = 0;
        while a < picked.len()
            invariant
                a <= picked@.len(),
                forall|k: int| 0 <= k < picked@.len() ==> (#[trigger] picked@[k]).is_sweet_spot,
                forall|k: int|
                    0 <= k < picked@.len() ==> evidences@.contains(#[trigger] picked@[k]),
                forall|k: int|
                    0 <= k < evidences@.len() && (#[trigger] evidences@[k]).is_sweet_spot
                        ==> picked@.contains(evidences@[k]),
                forall|x: int, y: int|
                    0 <= x < y < a ==> picked@[x].qec_gain >= picked@[y].qec_gain,
                forall|x: int, y: int|
                    0 <= x < a <= y < picked@.len() ==> picked@[x].qec_gain >= picked@[y].qec_gain,
            decreases picked@.len() - a,
        {
            let mut m: usize = a;
            let mut b: usize = a + 1;
            while b < picked.len()
                invariant
                    a <= m < b <= picked@.len(),
                    forall|k: int|
                        a <= k < b ==> picked@[m as int].qec_gain >= (#[trigger] picked@[k]).qec_gain,
                decreases picked@.len() - b,
            {
                if picked[b].qec_gain > picked[m].qec_gain {
                    m = b;
                }
                b = b + 1;
            }
            if m != a {
                let ghost pre = picked@;
                let va = picked[a];
                let vm = picked[m];
                picked[a] = vm;
                picked[m] = va;
                proof {
                    assert(evidences@.contains(vm) && evidences@.contains(va));
                    // a swap permutes the rows, so every flagged input row
                    // is still present
                    assert forall|k: int|
                        0 <= k < evidences@.len() && (#[trigger] evidences@[k]).is_sweet_spot
                            implies picked@.contains(evidences@[k]) by {
                        let w = choose|w: int| 0 <= w < pre.len() && pre[w] == evidences@[k];
                        if w == a {
                            assert(picked@[m as int] == evidences@[k]);
                        } else if w == m {
                            assert(picked@[a as int] == evidences@[k]);
                        } else {
                            assert(picked@[w] == evidences@[k]);
                        }
                    }
                }
            }
            a = a + 1;
        }
        picked
    }
}

} // verus!
