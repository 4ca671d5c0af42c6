//! Search for and evaluation of pulse timing sequences that suppress
//! decoherence in a noisy qubit, with a Monte-Carlo quantum-error-correction
//! layer that estimates the logical-versus-physical error gain.
//!
//! All real-valued quantities are carried as Q32.32 fixed-point numbers
//! (see [`fp`]), so that every arithmetic step has an exact, machine-checked
//! meaning; randomness enters only through the draws in [`rng`].

use vstd::prelude::*;

pub mod controller;
pub mod eval;
pub mod fft;
pub mod fp;
pub mod noise;
pub mod optimizer;
pub mod population;
pub mod pulse;
pub mod qec;
pub mod rng;
pub mod scanner;
pub mod trig;
pub mod viterbi;

verus! {

/// The library's error taxonomy. Numerical edge cases are handled locally
/// with clamps and sentinels and never surface as errors; only a
/// structurally invalid argument — a mismatched buffer length, an even
/// code distance, a duration outside the supported range — is reported,
/// at the call boundary, before any trial work begins.
#[derive(Clone, Copy, Debug, PartialEq, Eq, Structural)]
pub enum SfeError {
    InvalidArgument,
}

} // verus!
