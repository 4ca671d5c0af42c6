//! End-to-end scenario: optimize a pulse sequence by analytic descent over
//! a long duration, then push it through the repetition-code layer.

use sfe_core::fp::{FP_ONE, fp_from_ratio, fp_from_int};
use sfe_core::eval::EvalConfig;
use sfe_core::optimizer::{SfeOptimizer, DESCENT_BETA_FP};
use sfe_core::qec::{QecConfig, simulate_repetition_code};
use sfe_core::noise::PinkNoiseGenerator;
use sfe_core::rng::SfeRng;

#[test]
fn optimized_sequence_through_the_qec_layer() {
    let mut rng = SfeRng::from_entropy();
    let steps: u64 = 2000;
    let n_pulses: u64 = 60;
    let noise_amp = fp_from_ratio(1, 10);

    // pool for the objective function
    let gen = PinkNoiseGenerator::new_with_params(steps, fp_from_ratio(4, 5), fp_from_ratio(3, 20))
        .unwrap();
    let pool: Vec<Vec<i64>> = (0..2).map(|_| gen.generate_new(&mut rng)).collect();

    let opt = SfeOptimizer::new(DESCENT_BETA_FP);
    let cfg = EvalConfig { moment_order: 3, notch_omega: 0, notch_weight: 0 };
    let out = opt.optimize(steps, n_pulses, noise_amp, &pool, &cfg);
    assert!(out.score >= out.baseline_score);

    let seq: Vec<u64> = out
        .times
        .iter()
        .map(|&t| ((t as i128 * steps as i128) >> 32) as u64)
        .collect();

    // a quiet, strongly decoupled device: dephasing dominated by the
    // optimized sequence, tiny gate and measurement error floors
    let qcfg = QecConfig {
        alpha: fp_from_ratio(4, 5),
        scale: fp_from_ratio(3, 20),
        t1_steps: fp_from_int(100000000),
        gate_err: fp_from_ratio(1, 10000),
        meas_err: fp_from_ratio(1, 10000),
        rho: 0,
        tone_omega: 0,
        tone_amp: 0,
    };
    let res = simulate_repetition_code(5, &seq, noise_amp, steps, 50, 2000, &qcfg, &mut rng)
        .unwrap();

    // the logical rate is a probability
    assert!(res.logical_error_rate >= 0 && res.logical_error_rate <= FP_ONE);
    // the corrected layer strictly improves on the physical rate: either
    // the measured gain exceeds one, or no logical failure occurred at all
    // and the sentinel reports perfect suppression
    assert!(res.gain > FP_ONE || res.gain == -FP_ONE, "gain {}", res.gain);
}

