//! The noise synthesizer: shape contracts, error reporting, the flat
//! white spectrum, and the statistical whiteness of zero-exponent traces.

use sfe_core::fp::{FP_ONE, fp_from_ratio};
use sfe_core::noise::{PinkNoiseGenerator, bin_amplitude, generate_pink_noise,
    generate_correlated_pink_noise};
use sfe_core::rng::SfeRng;
use sfe_core::SfeError;

fn to_f64(x: i64) -> f64 {
    x as f64 / 4294967296.0
}

#[test]
fn generator_rejects_degenerate_durations() {
    assert!(matches!(PinkNoiseGenerator::new(1), Err(SfeError::InvalidArgument)));
    assert!(matches!(PinkNoiseGenerator::new(0), Err(SfeError::InvalidArgument)));
    assert!(PinkNoiseGenerator::new(2).is_ok());
}

#[test]
fn generate_rejects_a_mismatched_buffer() {
    let mut rng = SfeRng::from_entropy();
    let gen = PinkNoiseGenerator::new(64).unwrap();
    let mut wrong = vec![0i64; 63];
    assert_eq!(gen.generate(&mut rng, &mut wrong).unwrap_err(), SfeError::InvalidArgument);
    let mut right = vec![0i64; 64];
    assert!(gen.generate(&mut rng, &mut right).is_ok());
}

#[test]
fn traces_have_the_requested_shape() {
    let mut rng = SfeRng::from_entropy();
    let t = generate_pink_noise(100, &mut rng).unwrap();
    assert_eq!(t.len(), 100);
    let ts = generate_correlated_pink_noise(50, 5, FP_ONE, FP_ONE, fp_from_ratio(1, 2), &mut rng)
        .unwrap();
    assert_eq!(ts.len(), 5);
    for tr in ts.iter() {
        assert_eq!(tr.len(), 50);
    }
    // too many qubits is an invalid argument
    let bad = generate_correlated_pink_noise(50, 100000, FP_ONE, FP_ONE, 0, &mut rng);
    assert_eq!(bad.unwrap_err(), SfeError::InvalidArgument);
}

#[test]
fn full_correlation_makes_all_traces_identical() {
    // at (or above) correlation one the individual component has weight
    // zero: every qubit carries the same common-mode trace
    let mut rng = SfeRng::from_entropy();
    let ts = generate_correlated_pink_noise(64, 4, FP_ONE, FP_ONE, 2 * FP_ONE, &mut rng).unwrap();
    for tr in ts.iter() {
        assert_eq!(tr, &ts[0]);
    }
}

#[test]
fn white_noise_has_a_flat_spectrum() {
    // with a zero exponent the bin amplitude is exactly the scale
    let scale = fp_from_ratio(7, 4);
    for f in [1u64, 2, 17, 1000, 65536] {
        assert_eq!(bin_amplitude(scale, 0, f), scale);
    }
    // with a positive exponent the amplitude falls as f^(-alpha/2)
    let a1 = bin_amplitude(scale, FP_ONE, 2);
    let a2 = bin_amplitude(scale, FP_ONE, 64);
    assert!(a1 > a2);
    assert!((to_f64(a2) - to_f64(scale) / 8.0).abs() < 1e-3);
}

#[test]
fn zero_exponent_traces_are_white_and_centred() {
    // many realizations of alpha = 0 noise: the grand mean is near zero
    // and no early/late index bias appears (statistical, generous bounds)
    let mut rng = SfeRng::from_entropy();
    let steps: usize = 64;
    let gen = PinkNoiseGenerator::new_with_params(steps as u64, 0, FP_ONE).unwrap();
    let runs = 300;
    let mut grand = 0.0f64;
    let mut first_half = 0.0f64;
    let mut second_half = 0.0f64;
    let mut count = 0.0f64;
    for _ in 0..runs {
        let t = gen.generate_new(&mut rng);
        for (i, &v) in t.iter().enumerate() {
            let x = to_f64(v);
            grand += x;
            if i < steps / 2 {
                first_half += x;
            } else {
                second_half += x;
            }
            count += 1.0;
        }
    }
    let mean = grand / count;
    // per-sample standard deviation is of order sqrt(steps); the mean of
    // ~19k samples should be well inside one unit
    assert!(mean.abs() < 1.5, "grand mean {mean}");
    let half_gap = (first_half - second_half) / (count / 2.0);
    assert!(half_gap.abs() < 3.0, "index bias {half_gap}");
}
