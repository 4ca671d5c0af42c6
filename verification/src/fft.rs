//! In-place inverse fast Fourier transform on fixed-point complex values.
//!
//! Radix-2, power-of-two length, unnormalized (no division by the length),
//! so it matches the convention of spectral synthesis by inverse transform.
//! All arithmetic uses the saturating fixed-point operations, so the
//! transform is total; the contract pins the shape (lengths preserved), and
//! the twiddle factors handed in are pinned exactly by
//! [`fill_twiddles`].

use vstd::prelude::*;
use crate::fp::{FP_ONE, fp_bounded, sclamp, sdivi, fadd, fsub, fmul, fdivi, fp_clamp_wide};
use crate::trig::{TWO_PI_FP, scos, ssin, cos_fp, sin_fp};

verus! {

/// The twiddle angle for slot `k` of a transform of length `n`:
/// `2*pi*k / n`.
pub open spec fn stwiddle_angle(k: int, n: int) -> int {
    sdivi(sclamp(k * (TWO_PI_FP as int)), n)
}

/// Fill the twiddle tables for a transform of length `nfft`: slot `k`
/// holds the cosine and sine of `2*pi*k / nfft`.
pub fn fill_twiddles(nfft: u64) -> (r: (Vec<i64>, Vec<i64>))
    requires
        2 <= nfft <= 0x200000,
    ensures
        r.0@.len() == nfft / 2,
        r.1@.len() == nfft / 2,
        forall|k: int|
            0 <= k < nfft / 2 ==> (#[trigger] r.0@[k]) == scos(stwiddle_angle(k, nfft as int)),
        forall|k: int|
            0 <= k < nfft / 2 ==> (#[trigger] r.1@[k]) == ssin(stwiddle_angle(k, nfft as int)),
{
    let half = nfft / 2;
    let mut tre: Vec<i64> = Vec::new();
    let mut tim: Vec<i64> = Vec::new();
    let mut k: u64 = 0;
    while k < half
        invariant
            k <= half,
            half == nfft / 2,
            2 <= nfft <= 0x200000,
            tre@.len() == k,
            tim@.len() == k,
            forall|q: int|
                0 <= q < k ==> (#[trigger] tre@[q]) == scos(stwiddle_angle(q, nfft as int)),
            forall|q: int|
                0 <= q < k ==> (#[trigger] tim@[q]) == ssin(stwiddle_angle(q, nfft as int)),
        decreases half - k,
    {
        proof {
            assert((k as i128) * (TWO_PI_FP as i128) <= 0x200000i128 * (TWO_PI_FP as i128))
                by (nonlinear_arith)
                requires
                    0 <= k as i128 <= 0x200000i128,
            ;
        }
        let arg = fdivi(fp_clamp_wide((k as i128) * (TWO_PI_FP as i128)), nfft);
        tre.push(cos_fp(arg));
        tim.push(sin_fp(arg));
        k = k + 1;
    }
    (tre, tim)
}

/// Permute a vector into bit-reversed order (the standard preamble of an
/// iterative radix-2 transform).
fn bit_reverse(re: &mut Vec<i64>, im: &mut Vec<i64>, n: u64)
    requires
        old(re)@.len() == n,
        old(im)@.len() == n,
        2 <= n <= 0x200000,
        n % 2 == 0,
        forall|k: int| 0 <= k < n ==> fp_bounded(#[trigger] old(re)@[k] as int),
        forall|k: int| 0 <= k < n ==> fp_bounded(#[trigger] old(im)@[k] as int),
    ensures
        final(re)@.len() == n,
        final(im)@.len() == n,
        forall|k: int| 0 <= k < n ==> fp_bounded(#[trigger] final(re)@[k] as int),
        forall|k: int| 0 <= k < n ==> fp_bounded(#[trigger] final(im)@[k] as int),
{
    let mut rev: Vec<u64> = Vec::new();
    rev.push(0);
    let mut i: u64 = 1;
    while i < n
        invariant
            1 <= i <= n,
            rev@.len() == i,
            2 <= n <= 0x200000,
            forall|q: int| 0 <= q < i ==> (#[trigger] rev@[q]) < n,
        decreases n - i,
    {
        // the reversal of i is the half-shifted reversal of i/2 plus the
        // top bit when i is odd
        let base = rev[(i / 2) as usize] / 2;
        let top: u64 = if i % 2 == 1 {
            n / 2
        } else {
            0
        };
        proof {
            assert(rev@[(i / 2) as int] < n);
            vstd::arithmetic::div_mod::lemma_div_is_ordered(rev@[(i / 2) as int] as int, n as int - 1, 2);
        }
        let r = base + top;
        proof {
            assert((n as int - 1) / 2 + n as int / 2 < n as int);
        }
        rev.push(r);
        i = i + 1;
    }
    let mut j: u64 = 0;
    while j < n
        invariant
            j <= n,
            rev@.len() == n,
            re@.len() == n,
            im@.len() == n,
            2 <= n <= 0x200000,
            forall|q: int| 0 <= q < n ==> (#[trigger] rev@[q]) < n,
            forall|k: int| 0 <= k < n ==> fp_bounded(#[trigger] re@[k] as int),
            forall|k: int| 0 <= k < n ==> fp_bounded(#[trigger] im@[k] as int),
        decreases n - j,
    {
        let t = rev[j as usize];
        if j < t {
            let a = re[j as usize];
            let b = re[t as usize];
            re[j as usize] = b;
            re[t as usize] = a;
            let c = im[j as usize];
            let d = im[t as usize];
            im[j as usize] = d;
            im[t as usize] = c;
        }
        j = j + 1;
    }
}

/// Unnormalized inverse transform in place. The length must be a power of
/// two and match the twiddle tables.
pub fn ifft_in_place(re: &mut Vec<i64>, im: &mut Vec<i64>, tre: &Vec<i64>, tim: &Vec<i64>, n: u64)
    requires
        old(re)@.len() == n,
        old(im)@.len() == n,
        tre@.len() == n / 2,
        tim@.len() == n / 2,
        2 <= n <= 0x200000,
        n % 2 == 0,
        forall|k: int| 0 <= k < n ==> fp_bounded(#[trigger] old(re)@[k] as int),
        forall|k: int| 0 <= k < n ==> fp_bounded(#[trigger] old(im)@[k] as int),
    ensures
        final(re)@.len() == n,
        final(im)@.len() == n,
        forall|k: int| 0 <= k < n ==> fp_bounded(#[trigger] final(re)@[k] as int),
        forall|k: int| 0 <= k < n ==> fp_bounded(#[trigger] final(im)@[k] as int),
{
    bit_reverse(re, im, n);
    let mut len: u64 = 2;
    while len <= n
        invariant
            re@.len() == n,
            im@.len() == n,
            tre@.len() == n / 2,
            tim@.len() == n / 2,
            2 <= n <= 0x200000,
            2 <= len <= 2 * n + 2,
            forall|k: int| 0 <= k < n ==> fp_bounded(#[trigger] re@[k] as int),
            forall|k: int| 0 <= k < n ==> fp_bounded(#[trigger] im@[k] as int),
        decreases n + 2 - len,
    {
        let half = len / 2;
        let stride = n / len;
        let mut s: u64 = 0;
        while s + len <= n
            invariant
                re@.len() == n,
                im@.len() == n,
                tre@.len() == n / 2,
                tim@.len() == n / 2,
                2 <= n <= 0x200000,
                2 <= len <= n,
                half == len / 2,
                stride == n / len,
                s <= n,
                forall|k: int| 0 <= k < n ==> fp_bounded(#[trigger] re@[k] as int),
                forall|k: int| 0 <= k < n ==> fp_bounded(#[trigger] im@[k] as int),
            decreases n - s,
        {
            let mut k: u64 = 0;
            while k < half
                invariant
                    re@.len() == n,
                    im@.len() == n,
                    tre@.len() == n / 2,
                    tim@.len() == n / 2,
                    2 <= n <= 0x200000,
                    2 <= len <= n,
                    half == len / 2,
                    stride == n / len,
                    s + len <= n,
                    k <= half,
                    forall|q: int| 0 <= q < n ==> fp_bounded(#[trigger] re@[q] as int),
                    forall|q: int| 0 <= q < n ==> fp_bounded(#[trigger] im@[q] as int),
                decreases half - k,
            {
                proof {
                    assert(stride <= n) by {
                        vstd::arithmetic::div_mod::lemma_div_nonincreasing(n as int, len as int);
                    }
                    assert((k as int) * (stride as int) <= 0x200000 * 0x200000)
                        by (nonlinear_arith)
                        requires
                            0 <= k as int <= 0x200000,
                            0 <= stride as int <= 0x200000,
                    ;
                }
                let ti = k * stride;
                let (wr, wi) = if ti < n / 2 {
                    (tre[ti as usize], tim[ti as usize])
                } else {
                    (FP_ONE, 0)
                };
                let a = (s + k) as usize;
                let b = (s + k + half) as usize;
                proof {
                    assert(s + k + half < n);
                }
                let ur = re[a];
                let ui = im[a];
                let vr0 = re[b];
                let vi0 = im[b];
                let vr = fsub(fmul(vr0, wr), fmul(vi0, wi));
                let vi = fadd(fmul(vr0, wi), fmul(vi0, wr));
                re[a] = fadd(ur, vr);
                im[a] = fadd(ui, vi);
                re[b] = fsub(ur, vr);
                im[b] = fsub(ui, vi);
                k = k + 1;
            }
            s = s + len;
        }
        if len > n / 2 {
            // len was n (or n is not a power of two): the final stage ran
            len = n + 2;
        } else {
            len = len * 2;
        }
    }
}

} // verus!
