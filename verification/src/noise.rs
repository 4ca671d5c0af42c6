//! The colored-noise synthesizer.
//!
//! A noise trace is one realization of a `1/f^alpha` process, produced by
//! spectral synthesis: independent Gaussian-like coefficients are drawn per
//! frequency bin with amplitude `scale / f^(alpha/2)` (frequencies mapped
//! symmetrically around the Nyquist point), an explicit DC component is
//! drawn independently, and an unnormalized inverse transform turns the
//! spectrum into a time trace, of which the real part is kept. The
//! transform length is the duration rounded up to a power of two and its
//! twiddle tables are built once per generator and reused across calls.
//!
//! Values are random, so the contracts state what holds of every outcome:
//! the shape of the result, when a call is owed success, and — the one
//! deterministic piece — the exact bin amplitude, which is flat when
//! `alpha` is zero (white noise).

use vstd::prelude::*;
use crate::SfeError;
use crate::fp::{FP_ONE, FP_MAX, fp_bounded, sclamp, smul, sdivi, fmul, fdivi, fp_from_int};
use crate::trig::{sln, sexp_neg, ln_fp, exp_neg_fp, sqrt_fp};
use crate::fft::{fill_twiddles, ifft_in_place};
use crate::rng::{SfeRng, gaussian_fp};

verus! {

/// Longest supported trace.
pub const MAX_STEPS: u64 = 0x100000;

/// Most traces one correlated batch may hold.
pub const MAX_QUBITS: u64 = 1000;

/// A single noise trace: one fixed-point value per discrete time step.
pub type NoiseTrace = Vec<i64>;

/// The spectral amplitude of frequency bin `f`:
/// `scale * exp(-(alpha/2) * ln f)`, that is `scale / f^(alpha/2)`.
pub open spec fn sbin_amp(scale: int, alpha: int, f: int) -> int {
    smul(scale, sexp_neg(smul(sdivi(alpha, 2), sln(sclamp(f * (FP_ONE as int))))))
}

/// The spectral amplitude of one bin; exactly `scale` for white noise.
pub fn bin_amplitude(scale: i64, alpha: i64, f: u64) -> (r: i64)
    requires
        1 <= f <= 0x200000,
        0 <= alpha <= FP_MAX,
        -FP_MAX <= scale <= FP_MAX,
    ensures
        r == sbin_amp(scale as int, alpha as int, f as int),
        alpha == 0 ==> r == scale,
{
    let ffp = fp_from_int(f as i64);
    let lnf = ln_fp(ffp);
    let e = exp_neg_fp(fmul(fdivi(alpha, 2), lnf));
    let r = fmul(scale, e);
    proof {
        if alpha == 0 {
            vstd::arithmetic::div_mod::lemma_div_of0(2);
            crate::fp::lemma_smul_zero(sln(sclamp(f as int * (FP_ONE as int))));
            assert(e == FP_ONE);
            assert(crate::fp::sabs(scale as int) * (FP_ONE as int) / (FP_ONE as int)
                == crate::fp::sabs(scale as int)) by {
                vstd::arithmetic::div_mod::lemma_div_by_multiple(
                    crate::fp::sabs(scale as int),
                    FP_ONE as int,
                );
            }
        }
    }
    r
}

/// A reusable generator for `1/f^alpha` noise traces of a fixed duration.
/// The transform tables are built once; `alpha` below zero is clamped to
/// zero (the spectral exponent of white noise).
pub struct PinkNoiseGenerator {
    pub steps: u64,
    pub alpha: i64,
    pub scale: i64,
    pub nfft: u64,
    pub tw_re: Vec<i64>,
    pub tw_im: Vec<i64>,
    pub amps: Vec<i64>,
}

impl PinkNoiseGenerator {
    /// Structural soundness: duration in range, transform length even and
    /// no shorter than the duration, twiddle tables of matching size, and
    /// parameters within the fixed-point range.
    pub open spec fn wf(self) -> bool {
        &&& 2 <= self.steps <= MAX_STEPS
        &&& self.steps <= self.nfft <= 0x200000
        &&& self.nfft % 2 == 0
        &&& self.tw_re@.len() == self.nfft / 2
        &&& self.tw_im@.len() == self.nfft / 2
        &&& 0 <= self.alpha <= FP_MAX
        &&& -FP_MAX <= self.scale <= FP_MAX
        &&& self.amps@.len() == self.nfft
        &&& forall|i: int|
            1 <= i < self.nfft ==> (#[trigger] self.amps@[i]) == sbin_amp(
                self.scale as int,
                self.alpha as int,
                if i <= self.nfft / 2 {
                    i
                } else {
                    self.nfft - i
                },
            )
    }

    /// A generator with the default pink spectrum (`alpha` one, unit
    /// scale).
    pub fn new(steps: u64) -> (r: Result<PinkNoiseGenerator, SfeError>)
        ensures
            r is Ok <==> 2 <= steps <= MAX_STEPS,
            r matches Ok(g) ==> g.wf() && g.steps == steps && g.alpha == FP_ONE && g.scale
                == FP_ONE,
    {
        Self::new_with_params(steps, FP_ONE, FP_ONE)
    }

    /// A generator with the given spectral exponent and amplitude scale.
    /// The duration must be at least two (and within the supported range);
    /// anything else is an invalid argument.
    pub fn new_with_params(steps: u64, alpha: i64, scale: i64) -> (r: Result<
        PinkNoiseGenerator,
        SfeError,
    >)
        ensures
            r is Ok <==> 2 <= steps <= MAX_STEPS,
            r matches Ok(g) ==> g.wf() && g.steps == steps && g.scale == sclamp(scale as int)
                && g.alpha == (if alpha < 0 {
                0
            } else {
                sclamp(alpha as int)
            }),
    {
        if steps < 2 || steps > MAX_STEPS {
            return Err(SfeError::InvalidArgument);
        }
        let a: i64 = if alpha < 0 {
            0
        } else if alpha > FP_MAX {
            FP_MAX
        } else {
            alpha
        };
        let sc: i64 = if scale > FP_MAX {
            FP_MAX
        } else if scale < -FP_MAX {
            -FP_MAX
        } else {
            scale
        };
        let mut p: u64 = 2;
        while p < steps
            invariant
                2 <= p <= 0x200000,
                p % 2 == 0,
                steps <= MAX_STEPS,
            decreases 2 * steps - p,
        {
            p = p * 2;
        }
        let (tw_re, tw_im) = fill_twiddles(p);
        // the spectral envelope depends only on the bin, so it is built
        // once and shared by every later realization
        let mut amps: Vec<i64> = Vec::new();
        amps.push(0);
        let mut i: u64 = 1;
        while i < p
            invariant
                1 <= i <= p,
                2 <= p <= 0x200000,
                0 <= a <= FP_MAX,
                -FP_MAX <= sc <= FP_MAX,
                amps@.len() == i,
                forall|k: int|
                    1 <= k < i ==> (#[trigger] amps@[k]) == sbin_amp(
                        sc as int,
                        a as int,
                        if k <= p / 2 {
                            k
                        } else {
                            p - k
                        },
                    ),
            decreases p - i,
        {
            let f = if i <= p / 2 {
                i
            } else {
                p - i
            };
            amps.push(bin_amplitude(sc, a, f));
            i = i + 1;
        }
        Ok(PinkNoiseGenerator { steps, alpha: a, scale: sc, nfft: p, tw_re, tw_im, amps })
    }

    /// One realization of the noise process, written into the caller's
    /// buffer. Fails with an invalid argument — leaving the buffer
    /// untouched — exactly when the buffer length does not match the
    /// generator's duration.
    pub fn generate(&self, rng: &mut SfeRng, output: &mut Vec<i64>) -> (r: Result<
        (),
        SfeError,
    >)
        requires
            self.wf(),
        ensures
            r is Ok <==> old(output)@.len() == self.steps,
            final(output)@.len() == old(output)@.len(),
            r is Err ==> final(output)@ == old(output)@,
            r is Ok ==> forall|t: int|
                0 <= t < final(output)@.len() ==> fp_bounded(#[trigger] final(output)@[t] as int),
    {
        if output.len() != self.steps as usize {
            return Err(SfeError::InvalidArgument);
        }
        let nfft = self.nfft;
        let mut re: Vec<i64> = Vec::new();
        let mut im: Vec<i64> = Vec::new();
        // explicit DC/drift component, drawn independently
        let g0 = gaussian_fp(rng);
        let sq = sqrt_fp(fp_from_int(self.steps as i64));
        re.push(fmul(fmul(g0, sq), self.scale));
        im.push(0);
        let mut i: u64 = 1;
        while i < nfft
            invariant
                1 <= i <= nfft,
                re@.len() == i,
                im@.len() == i,
                self.wf(),
                nfft == self.nfft,
                forall|k: int| 0 <= k < i ==> fp_bounded(#[trigger] re@[k] as int),
                forall|k: int| 0 <= k < i ==> fp_bounded(#[trigger] im@[k] as int),
            decreases nfft - i,
        {
            let amp = self.amps[i as usize];
            let gr = gaussian_fp(rng);
            let gi = gaussian_fp(rng);
            re.push(fmul(gr, amp));
            im.push(fmul(gi, amp));
            i = i + 1;
        }
        ifft_in_place(&mut re, &mut im, &self.tw_re, &self.tw_im, nfft);
        let mut t: usize = 0;
        while t < self.steps as usize
            invariant
                t <= self.steps,
                re@.len() == self.nfft,
                output@.len() == self.steps,
                self.wf(),
                forall|k: int| 0 <= k < self.nfft ==> fp_bounded(#[trigger] re@[k] as int),
                forall|k: int| 0 <= k < t ==> fp_bounded(#[trigger] output@[k] as int),
            decreases self.steps - t,
        {
            output[t] = re[t];
            t = t + 1;
        }
        Ok(())
    }

    /// One realization as a fresh trace of the generator's duration.
    pub fn generate_new(&self, rng: &mut SfeRng) -> (r: Vec<i64>)
        requires
            self.wf(),
        ensures
            r@.len() == self.steps,
            forall|t: int| 0 <= t < r@.len() ==> fp_bounded(#[trigger] r@[t] as int),
    {
        let mut out: Vec<i64> = Vec::new();
        let mut t: u64 = 0;
        while t < self.steps
            invariant
                t <= self.steps,
                out@.len() == t,
            decreases self.steps - t,
        {
            out.push(0);
            t = t + 1;
        }
        let res = self.generate(rng, &mut out);
        proof {
            assert(res is Ok);
        }
        out
    }
}

/// One pink-noise trace with the default parameters.
pub fn generate_pink_noise(steps: u64, rng: &mut SfeRng) -> (r: Result<
    Vec<i64>,
    SfeError,
>)
    ensures
        r is Ok <==> 2 <= steps <= MAX_STEPS,
        r matches Ok(v) ==> v@.len() == steps,
{
    let g = PinkNoiseGenerator::new(steps)?;
    Ok(g.generate_new(rng))
}

/// One noise trace with the given spectral exponent and scale.
pub fn generate_pink_noise_with_params(
    steps: u64,
    alpha: i64,
    scale: i64,
    rng: &mut SfeRng,
) -> (r: Result<Vec<i64>, SfeError>)
    ensures
        r is Ok <==> 2 <= steps <= MAX_STEPS,
        r matches Ok(v) ==> v@.len() == steps,
{
    let g = PinkNoiseGenerator::new_with_params(steps, alpha, scale)?;
    Ok(g.generate_new(rng))
}

/// Spatially correlated noise for several qubits: every trace mixes a
/// shared common-mode realization, weighted `sqrt(rho)`, with an
/// independent realization, weighted `sqrt(1 - rho)`. A correlation
/// coefficient outside `[0, 1]` is clamped, by design, rather than
/// rejected.
pub fn generate_correlated_pink_noise(
    steps: u64,
    qubits: u64,
    alpha: i64,
    scale: i64,
    rho: i64,
    rng: &mut SfeRng,
) -> (r: Result<Vec<Vec<i64>>, SfeError>)
    ensures
        r is Ok <==> (2 <= steps <= MAX_STEPS && qubits <= MAX_QUBITS),
        r matches Ok(ts) ==> ts@.len() == qubits && forall|q: int|
            0 <= q < ts@.len() ==> (#[trigger] ts@[q]@.len()) == steps,
        rho >= FP_ONE ==> (r matches Ok(ts) ==> forall|q: int|
            0 <= q < ts@.len() ==> (#[trigger] ts@[q]@) == ts@[0]@),
{
    if qubits > MAX_QUBITS {
        return Err(SfeError::InvalidArgument);
    }
    let gen = PinkNoiseGenerator::new_with_params(steps, alpha, scale)?;
    Ok(correlated_traces(&gen, qubits, rho, rng))
}

/// Correlated traces from an existing generator, whose transform tables
/// are reused across calls. The correlation coefficient is clamped into
/// `[0, 1]`, by design, rather than rejected.
pub fn correlated_traces(
    gen: &PinkNoiseGenerator,
    qubits: u64,
    rho: i64,
    rng: &mut SfeRng,
) -> (r: Vec<Vec<i64>>)
    requires
        gen.wf(),
        qubits <= MAX_QUBITS,
    ensures
        r@.len() == qubits,
        forall|q: int| 0 <= q < r@.len() ==> (#[trigger] r@[q]@.len()) == gen.steps,
        rho >= FP_ONE ==> forall|q: int| 0 <= q < r@.len() ==> (#[trigger] r@[q]@) == r@[0]@,
{
    let steps = gen.steps;
    let ghost full = rho >= FP_ONE;
    let rc: i64 = if rho < 0 {
        0
    } else if rho > FP_ONE {
        FP_ONE
    } else {
        rho
    };
    let w_common = sqrt_fp(rc);
    let w_indiv = sqrt_fp(FP_ONE - rc);
    proof {
        if full {
            // at full correlation the mixing weights are exactly one and
            // zero: the square-root brackets admit no other values
            assert(rc == FP_ONE);
            assert(w_common == FP_ONE) by (nonlinear_arith)
                requires
                    w_common >= 0,
                    (w_common as int) * (w_common as int) <= (FP_ONE as int) * (FP_ONE as int),
                    (FP_ONE as int) * (FP_ONE as int) < ((w_common as int) + 1) * ((
                    w_common as int) + 1),
            ;
            assert(w_indiv == 0) by (nonlinear_arith)
                requires
                    w_indiv >= 0,
                    (w_indiv as int) * (w_indiv as int) <= 0,
            ;
        }
    }
    let common = gen.generate_new(rng);
    let mut traces: Vec<Vec<i64>> = Vec::new();
    let mut q: u64 = 0;
    while q < qubits
        invariant
            q <= qubits,
            traces@.len() == q,
            gen.wf(),
            gen.steps == steps,
            common@.len() == steps,
            forall|k: int| 0 <= k < common@.len() ==> fp_bounded(#[trigger] common@[k] as int),
            full == (rho >= FP_ONE),
            full ==> w_common == FP_ONE && w_indiv == 0,
            forall|k: int| 0 <= k < traces@.len() ==> (#[trigger] traces@[k]@.len()) == steps,
            full ==> forall|k: int| 0 <= k < traces@.len() ==> (#[trigger] traces@[k]@) == common@,
        decreases qubits - q,
    {
        let indiv = gen.generate_new(rng);
        let mut v: Vec<i64> = Vec::new();
        let mut t: usize = 0;
        while t < steps as usize
            invariant
                t <= steps,
                v@.len() == t,
                common@.len() == steps,
                indiv@.len() == steps,
                forall|k: int| 0 <= k < common@.len() ==> fp_bounded(#[trigger] common@[k] as int),
                full == (rho >= FP_ONE),
                full ==> w_common == FP_ONE && w_indiv == 0,
                full ==> forall|k: int| 0 <= k < t ==> (#[trigger] v@[k]) == common@[k],
            decreases steps - t,
        {
            proof {
                if full {
                    // one times the common sample, plus zero: the sample
                    // itself, unclamped because it is already in range
                    let c = common@[t as int] as int;
                    crate::fp::lemma_smul_zero(indiv@[t as int] as int);
                    assert(crate::fp::sabs(c) * (FP_ONE as int) / (FP_ONE as int)
                        == crate::fp::sabs(c)) by {
                        vstd::arithmetic::div_mod::lemma_div_by_multiple(
                            crate::fp::sabs(c),
                            FP_ONE as int,
                        );
                    }
                    assert(crate::fp::sabs(FP_ONE as int) * crate::fp::sabs(c) == crate::fp::sabs(
                        c,
                    ) * (FP_ONE as int)) by (nonlinear_arith);
                    assert(smul(FP_ONE as int, c) == c);
                }
            }
            v.push(crate::fp::fadd(fmul(w_common, common[t]), fmul(w_indiv, indiv[t])));
            t = t + 1;
        }
        proof {
            if full {
                assert(v@ =~= common@);
            }
        }
        traces.push(v);
        q = q + 1;
    }
    traces
}

} // verus!
