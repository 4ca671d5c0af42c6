//! Randomness for the Monte-Carlo layers.
//!
//! The trusted boundary of this crate is one call into the `rand` crate:
//! the seed draw in [`SfeRng::from_entropy`]. The stream itself is a
//! verified 64-bit mixing generator (the additive-constant / xor-shift
//! multiply construction), so drawing is ordinary verified code, and
//! everything built on the raw draws — uniform fixed-point variates, the
//! Gaussian approximation, Bernoulli trials — is verified too. No contract
//! promises anything about the distribution of a draw — a random result
//! admits no such promise — so every caller states only what holds of
//! every possible outcome.

use vstd::prelude::*;
use crate::fp::FP_ONE;

verus! {

#[verifier::external_type_specification]
#[verifier::external_body]
pub struct ExThreadRng(rand::rngs::ThreadRng);

/// Relies on rand::thread_rng: hands out this thread's lazily seeded
/// generator; no property of the returned generator is assumed.
#[verifier::external_body]
pub fn fresh_rng() -> rand::rngs::ThreadRng {
    rand::thread_rng()
}

/// Relies on rand::RngCore::next_u64: one 64-bit draw; nothing can be
/// promised of a random value, so the contract is empty.
#[verifier::external_body]
pub fn next_u64(rng: &mut rand::rngs::ThreadRng) -> u64 {
    rand::RngCore::next_u64(rng)
}

/// A fast pseudo-random stream: 64 bits of state advanced by a fixed odd
/// increment, finalized by xor-shift multiplications. The seed comes from
/// the system generator; every draw after that is verified code.
pub struct SfeRng {
    pub state: u64,
}

impl SfeRng {
    /// A stream seeded from this thread's system generator.
    pub fn from_entropy() -> SfeRng {
        let mut sys = fresh_rng();
        let seed = next_u64(&mut sys);
        SfeRng { state: seed }
    }

    /// A stream with a fixed seed, for reproducible runs.
    pub fn from_seed(seed: u64) -> (r: SfeRng)
        ensures
            r.state == seed,
    {
        SfeRng { state: seed }
    }

    /// The next raw 64-bit draw.
    #[inline(always)]
    pub fn next_raw(&mut self) -> u64 {
        self.state = self.state.wrapping_add(0x9E3779B97F4A7C15);
        let mut z = self.state;
        z = (z ^ (z / 0x40000000u64)) .wrapping_mul(0xBF58476D1CE4E5B9);
        z = (z ^ (z / 0x8000000u64)).wrapping_mul(0x94D9AEC61176A3E1);
        z ^ (z / 0x80000000u64)
    }
}

/// A draw in `[0, FP_ONE)`: the top 32 bits of one raw draw.
#[inline(always)]
pub fn uniform_fp(rng: &mut SfeRng) -> (r: i64)
    ensures
        0 <= r < FP_ONE as int,
{
    let u = rng.next_raw();
    (u / 4294967296u64) as i64
}

/// A standard-Gaussian-like draw: the sum of twelve independent uniform
/// variates, centred. Its mean is zero and its variance one; the magnitude
/// never exceeds six.
#[inline(always)]
pub fn gaussian_fp(rng: &mut SfeRng) -> (r: i64)
    ensures
        -(6 * FP_ONE as int) <= r <= 6 * FP_ONE as int,
{
    let mut acc: i64 = 0;
    let mut i: u64 = 0;
    while i < 12
        invariant
            i <= 12,
            -2147483648 * (i as int) <= acc <= 2147483648 * (i as int),
        decreases 12 - i,
    {
        let u = uniform_fp(rng);
        acc = acc + (u - 2147483648);
        i = i + 1;
    }
    acc
}

/// A Bernoulli trial with fixed-point success probability `p`: certain
/// failure at or below zero, certain success at or above one.
#[inline(always)]
pub fn coin(rng: &mut SfeRng, p: i64) -> (r: bool)
    ensures
        p <= 0 ==> !r,
        p >= FP_ONE ==> r,
{
    let u = uniform_fp(rng);
    u < p
}

} // verus!
