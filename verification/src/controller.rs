//! Hardware diagnosis and control-strategy selection.
//!
//! From coarse hardware metrics (relaxation and dephasing times, gate
//! error) the controller derives a diagnosis — is there a resolvable
//! resonance, how strong, how much drift — and picks a control mode:
//! passive waiting, a static optimized pulse sequence, or active noise
//! cancellation. The decision thresholds are pinned down exactly; when the
//! static mode is chosen, the pulse sequence comes from the analytic
//! descent optimizer against the caller's noise pool.

use vstd::prelude::*;
use crate::fp::{FP_ONE, FP_MAX, sclamp, sadd, ssub, smul, sdiv, fadd, fsub, fmul, fdiv, fp_from_int};
use crate::optimizer::{SfeOptimizer, DESCENT_BETA_FP, meets_min_first};

verus! {

/// Dephasing-rate threshold above which a resonance is diagnosed: 0.01.
pub const DEPHASING_THRESHOLD_FP: i64 = 42949673;

/// The diagnosed resonance frequency, in radians per microsecond: 0.2713.
pub const TLS_FREQ_FP: i64 = 1165222976;

/// Drift rate reported alongside a diagnosed resonance: 0.005.
pub const DRIFT_RATE_FP: i64 = 21474836;

/// Static-mode gain estimate with a strong resonance: 1.2.
pub const GAIN_STATIC_HIGH_FP: i64 = 5153960755;

/// Static-mode gain estimate otherwise: 1.05.
pub const GAIN_STATIC_LOW_FP: i64 = 4509715661;

/// Drift penalty factor on the static gain: 0.8.
pub const DRIFT_FACTOR_FP: i64 = 3435973837;

/// Cancellation gain with a strong resonance and rich coherence: 3.5.
pub const GAIN_ANC_HIGH_FP: i64 = 15032385536;

/// Cancellation gain otherwise: 1.1.
pub const GAIN_ANC_LOW_FP: i64 = 4724464026;

/// Cancellation is chosen only above this gain: 1.3.
pub const ANC_CUTOFF_FP: i64 = 5583457485;

/// The static mode is chosen only above this gain: 1.1.
pub const STATIC_CUTOFF_FP: i64 = 4724464026;

/// Base physical error rate of the effective-distance rule: 0.001.
pub const P_BASE_FP: i64 = 4294967;

/// Effective rates below this warrant distance seven: 0.0001.
pub const P_DIST7_FP: i64 = 429497;

/// Effective rates below this warrant distance five: 0.0005.
pub const P_DIST5_FP: i64 = 2147484;

/// Pulse count of the statically optimized sequence.
pub const STATIC_N_PULSES: u64 = 8;

/// Noise level assumed when optimizing the static sequence: 0.15.
pub const STATIC_NOISE_LEVEL_FP: i64 = 644245094;

/// The available control modes: do nothing, apply a static optimized
/// pulse sequence, or run active noise cancellation.
#[derive(Clone, Copy, Debug, PartialEq, Eq, Structural)]
pub enum ControlMode {
    Passive,
    Static,
    ANC,
}

/// A hardware diagnosis: the measured times and gate error, and the
/// derived resonance frequency, amplitude and drift rate.
#[derive(Clone, Copy)]
pub struct HardwareSpec {
    pub t1: i64,
    pub t2: i64,
    pub gate_err: i64,
    pub tls_freq: Option<i64>,
    pub tls_amp: i64,
    pub drift_rate: i64,
}

/// A chosen strategy: the mode, the pulse sequence it carries (empty
/// unless static), the recommended code distance, and the expected gain.
pub struct ControlStrategy {
    pub mode: ControlMode,
    pub pulse_sequence: Vec<i64>,
    pub qec_distance: u64,
    pub expected_gain: i64,
}

/// The controller keeps the history of diagnoses it has made.
pub struct SfeController {
    pub history: Vec<HardwareSpec>,
}

/// The pure dephasing rate: `1/t2 - 1/(2*t1)`.
pub open spec fn spure_dephasing(t1: int, t2: int) -> int {
    ssub(sdiv(FP_ONE as int, t2), sdiv(FP_ONE as int, sadd(t1, t1)))
}

/// The static-mode gain estimate for a diagnosis.
pub open spec fn sgain_static(spec: HardwareSpec) -> int {
    let base: int = if spec.tls_amp > 429496730 {
        GAIN_STATIC_HIGH_FP as int
    } else {
        GAIN_STATIC_LOW_FP as int
    };
    if smul(spec.drift_rate as int, sclamp(100 * (FP_ONE as int))) > FP_ONE as int {
        smul(base, DRIFT_FACTOR_FP as int)
    } else {
        base
    }
}

/// The cancellation gain estimate for a diagnosis.
pub open spec fn sgain_anc(spec: HardwareSpec) -> int {
    if spec.tls_amp > FP_ONE as int && spec.t1 > sclamp(100 * (FP_ONE as int)) {
        GAIN_ANC_HIGH_FP as int
    } else {
        GAIN_ANC_LOW_FP as int
    }
}

/// The chosen mode and its expected gain.
pub open spec fn smode_choice(spec: HardwareSpec) -> (ControlMode, int) {
    let gs = sgain_static(spec);
    let ga = sgain_anc(spec);
    if ga > gs && ga > ANC_CUTOFF_FP as int {
        (ControlMode::ANC, ga)
    } else if gs > STATIC_CUTOFF_FP as int {
        (ControlMode::Static, gs)
    } else {
        (ControlMode::Passive, FP_ONE as int)
    }
}

/// The recommended code distance for an expected gain: the base error
/// rate divided by the gain, against the two distance thresholds.
pub open spec fn sdistance_choice(gain: int) -> int {
    let p_eff = sdiv(P_BASE_FP as int, gain);
    if p_eff < P_DIST7_FP as int {
        7
    } else if p_eff < P_DIST5_FP as int {
        5
    } else {
        3
    }
}

impl SfeController {
    pub fn new() -> (r: Self)
        ensures
            r.history@.len() == 0,
    {
        SfeController { history: Vec::new() }
    }

    /// Diagnose the hardware from its relaxation time, dephasing time and
    /// gate error. A resonance is reported exactly when the pure
    /// dephasing rate exceeds the threshold; its amplitude is twice the
    /// square root of that rate. The diagnosis joins the history.
    pub fn diagnose(&mut self, t1: i64, t2: i64, gate_err: i64) -> (r: HardwareSpec)
        ensures
            r.t1 == t1 && r.t2 == t2 && r.gate_err == gate_err,
            r.tls_freq is Some <==> spure_dephasing(t1 as int, t2 as int)
                > DEPHASING_THRESHOLD_FP as int,
            r.tls_freq is Some ==> r.tls_freq == Some(TLS_FREQ_FP) && r.drift_rate == DRIFT_RATE_FP
                && r.tls_amp % 2 == 0 && ((r.tls_amp / 2) as int) * ((r.tls_amp / 2) as int)
                <= spure_dephasing(t1 as int, t2 as int) * (FP_ONE as int) < ((r.tls_amp / 2)
                as int + 1) * ((r.tls_amp / 2) as int + 1),
            r.tls_freq is None ==> r.tls_amp == 0 && r.drift_rate == 0,
            final(self).history@ == old(self).history@.push(r),
    {
        let rate_t2 = fdiv(FP_ONE, t2);
        let rate_t1_limit = fdiv(FP_ONE, fadd(t1, t1));
        let pure_dephasing = fsub(rate_t2, rate_t1_limit);
        let spec = if pure_dephasing > DEPHASING_THRESHOLD_FP {
            let s = crate::trig::sqrt_fp(pure_dephasing);
            proof {
                assert((s as int) * (s as int) <= (FP_MAX as int) * (FP_ONE as int)) by {
                    vstd::arithmetic::mul::lemma_mul_inequality(
                        pure_dephasing as int,
                        FP_MAX as int,
                        FP_ONE as int,
                    );
                }
                assert(s as int <= 17592186044416) by (nonlinear_arith)
                    requires
                        s as int >= 0,
                        (s as int) * (s as int) <= 154742504910672534362390528,
                ;
            }
            let amp = s + s;
            proof {
                assert(amp / 2 == s);
            }
            HardwareSpec {
                t1,
                t2,
                gate_err,
                tls_freq: Some(TLS_FREQ_FP),
                tls_amp: amp,
                drift_rate: DRIFT_RATE_FP,
            }
        } else {
            HardwareSpec { t1, t2, gate_err, tls_freq: None, tls_amp: 0, drift_rate: 0 }
        };
        self.history.push(spec);
        spec
    }

    /// Select a control strategy for a diagnosis. The mode, expected gain
    /// and recommended distance follow the decision rules exactly; in the
    /// static mode the carried pulse sequence is optimized against the
    /// given noise pool, with the notch filter tuned to the diagnosed
    /// resonance.
    pub fn select_strategy(&self, spec: &HardwareSpec, noise_pool: &Vec<Vec<i64>>) -> (r:
        ControlStrategy)
        requires
            noise_pool@.len() > 0 ==> 2 <= noise_pool@[0]@.len() <= 0x400000,
            forall|i: int|
                0 <= i < noise_pool@.len() ==> (#[trigger] noise_pool@[i]@.len())
                    == noise_pool@[0]@.len(),
        ensures
            r.mode == smode_choice(*spec).0,
            r.expected_gain == smode_choice(*spec).1,
            r.qec_distance == sdistance_choice(smode_choice(*spec).1),
            r.mode is Static ==> r.pulse_sequence@.len() == STATIC_N_PULSES,
            r.mode is Static ==> forall|k: int|
                0 <= k < r.pulse_sequence@.len() ==> 0 <= #[trigger] r.pulse_sequence@[k]
                    <= FP_ONE,
            r.mode is Static ==> meets_min_first(r.pulse_sequence@),
            !(r.mode is Static) ==> r.pulse_sequence@.len() == 0,
    {
        let drift_penalty = fmul(spec.drift_rate, fp_from_int(100));
        let mut gain_static = if spec.tls_amp > 429496730 {
            GAIN_STATIC_HIGH_FP
        } else {
            GAIN_STATIC_LOW_FP
        };
        if drift_penalty > FP_ONE {
            gain_static = fmul(gain_static, DRIFT_FACTOR_FP);
        }
        let coherence_rich = spec.t1 > fp_from_int(100);
        let strong_tls = spec.tls_amp > FP_ONE;
        let gain_anc = if strong_tls && coherence_rich {
            GAIN_ANC_HIGH_FP
        } else {
            GAIN_ANC_LOW_FP
        };
        let (mode, gain) = if gain_anc > gain_static && gain_anc > ANC_CUTOFF_FP {
            (ControlMode::ANC, gain_anc)
        } else if gain_static > STATIC_CUTOFF_FP {
            (ControlMode::Static, gain_static)
        } else {
            (ControlMode::Passive, FP_ONE)
        };
        let p_eff = fdiv(P_BASE_FP, gain);
        let qec_dist: u64 = if p_eff < P_DIST7_FP {
            7
        } else if p_eff < P_DIST5_FP {
            5
        } else {
            3
        };
        let seq: Vec<i64> = if mode == ControlMode::Static {
            let steps: u64 = if noise_pool.len() > 0 {
                noise_pool[0].len() as u64
            } else {
                2000
            };
            // diagnosed frequency converted from physical to simulation
            // units: one step is (total duration / steps) microseconds
            let tls_omega_sim = match spec.tls_freq {
                Some(f) => Some(fmul(f, fdiv(fp_from_int(100), fp_from_int(steps as i64)))),
                None => None,
            };
            let optimizer = SfeOptimizer::new(DESCENT_BETA_FP);
            let out = optimizer.optimize_for_spec(
                steps,
                STATIC_N_PULSES,
                STATIC_NOISE_LEVEL_FP,
                noise_pool,
                3,
                tls_omega_sim,
            );
            out.times
        } else {
            Vec::new()
        };
        ControlStrategy { mode, pulse_sequence: seq, qec_distance: qec_dist, expected_gain: gain }
    }
}

} // verus!
