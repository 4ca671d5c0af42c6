//! Fixed-point transcendental kernel: cosine, sine, negative exponential,
//! natural logarithm and square root on Q32.32 values.
//!
//! Each executable function returns exactly the value of its
//! specification-level mirror (`scos`, `ssin`, `sexp_neg`, `sln`), which is
//! built from the total fixed-point operations of [`crate::fp`]; the square
//! root is instead pinned by the exact bracketing `r*r <= x*2^32 < (r+1)*(r+1)`.
//! Cosine and sine reduce their argument modulo `2*pi`, pick the quadrant,
//! and evaluate a truncated Taylor polynomial on `[0, pi/2]`; the results are
//! clamped into `[-FP_ONE, FP_ONE]`.

use vstd::prelude::*;
use crate::fp::{FP_ONE, FP_MAX, sabs, sadd, ssub, smul, sdiv, sdivi, sclamp, fp_abs, fadd, fsub,
    fneg, fmul, fdiv, fdivi, fp_clamp_wide};

verus! {

/// `pi` in Q32.32.
pub const PI_FP: i64 = 13493037705;

/// `2*pi` in Q32.32.
pub const TWO_PI_FP: i64 = 26986075409;

/// `pi/2` in Q32.32.
pub const HALF_PI_FP: i64 = 6746518852;

/// `ln 2` in Q32.32.
pub const LN2_FP: i64 = 2977044472;

/// `1/2` in Q32.32 (cosine Taylor coefficient).
pub const COS_C2: i64 = 2147483648;

/// `1/24` in Q32.32.
pub const COS_C4: i64 = 178956971;

/// `1/720` in Q32.32.
pub const COS_C6: i64 = 5965233;

/// `1/40320` in Q32.32.
pub const COS_C8: i64 = 106527;

/// `1/3628800` in Q32.32.
pub const COS_C10: i64 = 1184;

/// `1/479001600` in Q32.32.
pub const COS_C12: i64 = 9;

/// `1/6` in Q32.32 (sine Taylor coefficient).
pub const SIN_C3: i64 = 715827883;

/// `1/120` in Q32.32.
pub const SIN_C5: i64 = 35791394;

/// `1/5040` in Q32.32.
pub const SIN_C7: i64 = 852177;

/// `1/362880` in Q32.32.
pub const SIN_C9: i64 = 11837;

/// `1/39916800` in Q32.32.
pub const SIN_C11: i64 = 108;

/// Clamp into the unit interval `[-FP_ONE, FP_ONE]`.
pub open spec fn sunit(x: int) -> int {
    if x > FP_ONE as int {
        FP_ONE as int
    } else if x < -(FP_ONE as int) {
        -(FP_ONE as int)
    } else {
        x
    }
}

/// Unit clamp, executable form.
#[inline(always)]
pub fn funit(x: i64) -> (r: i64)
    ensures
        r == sunit(x as int),
{
    if x > FP_ONE {
        FP_ONE
    } else if x < -FP_ONE {
        -FP_ONE
    } else {
        x
    }
}

/// Taylor cosine on one quadrant, as computed by `cos_quarter`.
pub open spec fn scos_q(t: int) -> int {
    let z = smul(t, t);
    let w5 = ssub(COS_C10 as int, smul(z, COS_C12 as int));
    let w4 = ssub(COS_C8 as int, smul(z, w5));
    let w3 = ssub(COS_C6 as int, smul(z, w4));
    let w2 = ssub(COS_C4 as int, smul(z, w3));
    let w1 = ssub(COS_C2 as int, smul(z, w2));
    sunit(ssub(FP_ONE as int, smul(z, w1)))
}

/// Taylor sine on one quadrant, as computed by `sin_quarter`.
pub open spec fn ssin_q(t: int) -> int {
    let z = smul(t, t);
    let p5 = ssub(SIN_C9 as int, smul(z, SIN_C11 as int));
    let p4 = ssub(SIN_C7 as int, smul(z, p5));
    let p3 = ssub(SIN_C5 as int, smul(z, p4));
    let p2 = ssub(SIN_C3 as int, smul(z, p3));
    let p1 = ssub(FP_ONE as int, smul(z, p2));
    sunit(smul(t, p1))
}

/// Fixed-point cosine: reduction modulo `2*pi`, then a quadrant polynomial.
pub open spec fn scos(x: int) -> int {
    let r0 = sabs(x) % (TWO_PI_FP as int);
    let q = r0 / (HALF_PI_FP as int);
    let t = r0 % (HALF_PI_FP as int);
    if q == 1 {
        sclamp(-ssin_q(t))
    } else if q == 2 {
        sclamp(-scos_q(t))
    } else if q == 3 {
        ssin_q(t)
    } else {
        scos_q(t)
    }
}

/// Fixed-point sine, with the sign of the argument reapplied.
pub open spec fn ssin(x: int) -> int {
    let r0 = sabs(x) % (TWO_PI_FP as int);
    let q = r0 / (HALF_PI_FP as int);
    let t = r0 % (HALF_PI_FP as int);
    let m = if q == 1 {
        scos_q(t)
    } else if q == 2 {
        sclamp(-ssin_q(t))
    } else if q == 3 {
        sclamp(-scos_q(t))
    } else {
        ssin_q(t)
    };
    if x >= 0 {
        m
    } else {
        sclamp(-m)
    }
}

/// Cosine polynomial on `[0, pi/2]`.
#[inline(always)]
fn cos_quarter(t: i64) -> (r: i64)
    ensures
        r == scos_q(t as int),
        -(FP_ONE as int) <= r <= FP_ONE as int,
{
    let z = fmul(t, t);
    let w5 = fsub(COS_C10, fmul(z, COS_C12));
    let w4 = fsub(COS_C8, fmul(z, w5));
    let w3 = fsub(COS_C6, fmul(z, w4));
    let w2 = fsub(COS_C4, fmul(z, w3));
    let w1 = fsub(COS_C2, fmul(z, w2));
    funit(fsub(FP_ONE, fmul(z, w1)))
}

/// Sine polynomial on `[0, pi/2]`.
#[inline(always)]
fn sin_quarter(t: i64) -> (r: i64)
    ensures
        r == ssin_q(t as int),
        -(FP_ONE as int) <= r <= FP_ONE as int,
{
    let z = fmul(t, t);
    let p5 = fsub(SIN_C9, fmul(z, SIN_C11));
    let p4 = fsub(SIN_C7, fmul(z, p5));
    let p3 = fsub(SIN_C5, fmul(z, p4));
    let p2 = fsub(SIN_C3, fmul(z, p3));
    let p1 = fsub(FP_ONE, fmul(z, p2));
    funit(fmul(t, p1))
}

/// Fixed-point cosine of any argument.
#[inline(always)]
pub fn cos_fp(x: i64) -> (r: i64)
    ensures
        r == scos(x as int),
        -(FP_ONE as int) <= r <= FP_ONE as int,
{
    let mag = fp_abs(x);
    let r0 = mag % (TWO_PI_FP as u64);
    let q = r0 / (HALF_PI_FP as u64);
    let t = (r0 % (HALF_PI_FP as u64)) as i64;
    if q == 1 {
        fneg(sin_quarter(t))
    } else if q == 2 {
        fneg(cos_quarter(t))
    } else if q == 3 {
        sin_quarter(t)
    } else {
        cos_quarter(t)
    }
}

/// Fixed-point sine of any argument.
#[inline(always)]
pub fn sin_fp(x: i64) -> (r: i64)
    ensures
        r == ssin(x as int),
        -(FP_ONE as int) <= r <= FP_ONE as int,
{
    let mag = fp_abs(x);
    let r0 = mag % (TWO_PI_FP as u64);
    let q = r0 / (HALF_PI_FP as u64);
    let t = (r0 % (HALF_PI_FP as u64)) as i64;
    let m = if q == 1 {
        cos_quarter(t)
    } else if q == 2 {
        fneg(sin_quarter(t))
    } else if q == 3 {
        fneg(cos_quarter(t))
    } else {
        sin_quarter(t)
    };
    if x >= 0 {
        m
    } else {
        fneg(m)
    }
}

/// The specification-level sine and cosine stay within the unit range.
pub proof fn lemma_trig_range(x: int)
    ensures
        -(FP_ONE as int) <= ssin(x) <= FP_ONE as int,
        -(FP_ONE as int) <= scos(x) <= FP_ONE as int,
{
}

/// The fixed-point cosine of zero is exactly one.
pub proof fn lemma_scos_zero()
    ensures
        scos(0) == FP_ONE as int,
{
    vstd::arithmetic::div_mod::lemma_small_mod(0, TWO_PI_FP as nat);
    vstd::arithmetic::div_mod::lemma_div_of0(HALF_PI_FP as int);
    vstd::arithmetic::div_mod::lemma_small_mod(0, HALF_PI_FP as nat);
    crate::fp::lemma_smul_zero(0);
    let z = smul(0, 0);
    assert(z == 0);
    let w5 = ssub(COS_C10 as int, smul(z, COS_C12 as int));
    let w4 = ssub(COS_C8 as int, smul(z, w5));
    let w3 = ssub(COS_C6 as int, smul(z, w4));
    let w2 = ssub(COS_C4 as int, smul(z, w3));
    let w1 = ssub(COS_C2 as int, smul(z, w2));
    crate::fp::lemma_smul_zero(w5);
    crate::fp::lemma_smul_zero(w4);
    crate::fp::lemma_smul_zero(w3);
    crate::fp::lemma_smul_zero(w2);
    crate::fp::lemma_smul_zero(w1);
    crate::fp::lemma_smul_zero(COS_C12 as int);
    assert(w1 == COS_C2 as int);
    assert(scos_q(0) == sunit(ssub(FP_ONE as int, smul(0, w1))));
    assert(scos_q(0) == FP_ONE as int);
}

/// `2^k` as a `u64`, for `k < 63`.
fn pow2_u64(k: u64) -> (r: u64)
    requires
        k < 63,
    ensures
        r == vstd::arithmetic::power2::pow2(k as nat),
        r >= 1,
{
    let mut d: u64 = 1;
    let mut i: u64 = 0;
    proof {
        vstd::arithmetic::power2::lemma2_to64();
        assert(d == vstd::arithmetic::power2::pow2(0));
    }
    while i < k
        invariant
            i <= k < 63,
            d == vstd::arithmetic::power2::pow2(i as nat),
            1 <= d,
        decreases k - i,
    {
        proof {
            vstd::arithmetic::power2::lemma_pow2_strictly_increases(i as nat, 63);
            vstd::arithmetic::power2::lemma2_to64_rest();
            vstd::arithmetic::power2::lemma_pow2_unfold((i + 1) as nat);
        }
        d = d * 2;
        i = i + 1;
    }
    d
}

/// The Taylor polynomial for `exp(-f)` on `[0, ln 2)`, as nested by
/// `exp_neg_fp`, clamped into the unit range.
pub open spec fn sexp_poly(f: int) -> int {
    let u9 = ssub(FP_ONE as int, sdivi(f, 9));
    let u8 = ssub(FP_ONE as int, sdivi(smul(f, u9), 8));
    let u7 = ssub(FP_ONE as int, sdivi(smul(f, u8), 7));
    let u6 = ssub(FP_ONE as int, sdivi(smul(f, u7), 6));
    let u5 = ssub(FP_ONE as int, sdivi(smul(f, u6), 5));
    let u4 = ssub(FP_ONE as int, sdivi(smul(f, u5), 4));
    let u3 = ssub(FP_ONE as int, sdivi(smul(f, u4), 3));
    let u2 = ssub(FP_ONE as int, sdivi(smul(f, u3), 2));
    sunit(ssub(FP_ONE as int, smul(f, u2)))
}

/// Fixed-point `exp(-x)` for `x >= 0`; non-positive arguments yield one.
pub open spec fn sexp_neg(x: int) -> int {
    if x <= 0 {
        FP_ONE as int
    } else {
        let k = x / (LN2_FP as int);
        if k >= 63 {
            0
        } else {
            let f = x % (LN2_FP as int);
            let p = sexp_poly(f);
            if p <= 0 {
                0
            } else {
                p / (vstd::arithmetic::power2::pow2(k as nat) as int)
            }
        }
    }
}

/// Fixed-point negative exponential.
pub fn exp_neg_fp(x: i64) -> (r: i64)
    ensures
        r == sexp_neg(x as int),
        0 <= r <= FP_ONE as int,
{
    if x <= 0 {
        return FP_ONE;
    }
    let xm = x as u64;
    let k = xm / (LN2_FP as u64);
    if k >= 63 {
        return 0;
    }
    let f = (xm % (LN2_FP as u64)) as i64;
    let u9 = fsub(FP_ONE, fdivi(f, 9));
    let u8 = fsub(FP_ONE, fdivi(fmul(f, u9), 8));
    let u7 = fsub(FP_ONE, fdivi(fmul(f, u8), 7));
    let u6 = fsub(FP_ONE, fdivi(fmul(f, u7), 6));
    let u5 = fsub(FP_ONE, fdivi(fmul(f, u6), 5));
    let u4 = fsub(FP_ONE, fdivi(fmul(f, u5), 4));
    let u3 = fsub(FP_ONE, fdivi(fmul(f, u4), 3));
    let u2 = fsub(FP_ONE, fdivi(fmul(f, u3), 2));
    let p = funit(fsub(FP_ONE, fmul(f, u2)));
    if p <= 0 {
        return 0;
    }
    let d = pow2_u64(k);
    let r = (p as u64) / d;
    proof {
        vstd::arithmetic::div_mod::lemma_div_is_ordered(p as int, FP_ONE as int, d as int);
        vstd::arithmetic::div_mod::lemma_div_nonincreasing(FP_ONE as int, d as int);
    }
    r as i64
}

/// Repeated halving of the mantissa until it is below `2*FP_ONE`; returns
/// the mantissa and the number of halvings.
pub open spec fn snorm_down(m: int, e: int) -> (int, int)
    decreases m when m >= 1
{
    if m < 2 * (FP_ONE as int) || m < 1 {
        (m, e)
    } else {
        snorm_down(m / 2, e + 1)
    }
}

/// The arctanh series for `ln(m / FP_ONE)` on a normalized mantissa, as
/// nested by `ln_fp`.
pub open spec fn sln_series(m: int) -> int {
    let z = sdiv(ssub(m, FP_ONE as int), sadd(m, FP_ONE as int));
    let y = smul(z, z);
    let w6 = sdivi(FP_ONE as int, 13);
    let w5 = sadd(sdivi(FP_ONE as int, 11), smul(y, w6));
    let w4 = sadd(sdivi(FP_ONE as int, 9), smul(y, w5));
    let w3 = sadd(sdivi(FP_ONE as int, 7), smul(y, w4));
    let w2 = sadd(sdivi(FP_ONE as int, 5), smul(y, w3));
    let w1 = sadd(sdivi(FP_ONE as int, 3), smul(y, w2));
    let w0 = sadd(FP_ONE as int, smul(y, w1));
    sadd(smul(z, w0), smul(z, w0))
}

/// Fixed-point natural logarithm of `x / FP_ONE`, for `x >= FP_ONE`
/// (arguments below one are handled by callers through the reciprocal).
pub open spec fn sln(x: int) -> int {
    let me = snorm_down(x, 0);
    sadd(sln_series(me.0), sclamp(me.1 * (LN2_FP as int)))
}

/// Fixed-point natural logarithm on `[FP_ONE, FP_MAX]`.
pub fn ln_fp(x: i64) -> (r: i64)
    requires
        x >= FP_ONE,
    ensures
        r == sln(x as int),
{
    let mut m: u64 = x as u64;
    let mut e: u64 = 0;
    proof {
        vstd::arithmetic::power2::lemma2_to64();
    }
    while m >= 2 * (FP_ONE as u64)
        invariant
            FP_ONE as u64 <= m,
            e <= 30,
            (m as int) * (vstd::arithmetic::power2::pow2(e as nat) as int) <= x as int,
            (x as int) < (m as int + 1) * (vstd::arithmetic::power2::pow2(e as nat) as int),
            snorm_down(x as int, 0) == snorm_down(m as int, e as int),
        decreases m,
    {
        proof {
            let p = vstd::arithmetic::power2::pow2(e as nat) as int;
            let p2 = vstd::arithmetic::power2::pow2((e + 1) as nat) as int;
            vstd::arithmetic::power2::lemma_pow2_pos(e as nat);
            vstd::arithmetic::power2::lemma_pow2_unfold((e + 1) as nat);
            assert(p2 == 2 * p);
            assert(snorm_down(m as int, e as int) == snorm_down(m as int / 2, e as int + 1));
            let mh = m as int / 2;
            assert(mh * p2 <= (m as int) * p && (m as int + 1) * p <= (mh + 1) * p2)
                by (nonlinear_arith)
                requires
                    p2 == 2 * p,
                    p >= 1,
                    mh == (m as int) / 2,
                    m >= 1,
            ;
            // the exponent stays small: 2^33 * 2^e <= m * 2^e <= x < 2^63
            if e >= 30 {
                if e > 30 {
                    vstd::arithmetic::power2::lemma_pow2_strictly_increases(30, e as nat);
                }
                vstd::arithmetic::power2::lemma2_to64();
                assert(8589934592 * p <= (m as int) * p) by (nonlinear_arith)
                    requires
                        m as int >= 8589934592,
                        p >= 1,
                ;
                assert(8589934592 * p >= 8589934592 * 0x40000000) by (nonlinear_arith)
                    requires
                        p >= 0x40000000,
                ;
                assert(false);
            }
        }
        m = m / 2;
        e = e + 1;
    }
    let mfp = m as i64;
    let z = fdiv(fsub(mfp, FP_ONE), fadd(mfp, FP_ONE));
    let y = fmul(z, z);
    let w6 = fdivi(FP_ONE, 13);
    let w5 = fadd(fdivi(FP_ONE, 11), fmul(y, w6));
    let w4 = fadd(fdivi(FP_ONE, 9), fmul(y, w5));
    let w3 = fadd(fdivi(FP_ONE, 7), fmul(y, w4));
    let w2 = fadd(fdivi(FP_ONE, 5), fmul(y, w3));
    let w1 = fadd(fdivi(FP_ONE, 3), fmul(y, w2));
    let w0 = fadd(FP_ONE, fmul(y, w1));
    let series = fadd(fmul(z, w0), fmul(z, w0));
    proof {
        assert((e as i128) * (LN2_FP as i128) <= 62 * (LN2_FP as i128)) by (nonlinear_arith)
            requires
                0 <= e <= 62,
        ;
    }
    let eterm = fp_clamp_wide((e as i128) * (LN2_FP as i128));
    fadd(series, eterm)
}

/// Fixed-point square root: the unique `r` with
/// `r*r <= x*FP_ONE < (r+1)*(r+1)`.
pub fn sqrt_fp(x: i64) -> (r: i64)
    requires
        0 <= x <= FP_MAX,
    ensures
        0 <= r,
        (r as int) * (r as int) <= (x as int) * (FP_ONE as int),
        (x as int) * (FP_ONE as int) < (r as int + 1) * (r as int + 1),
{
    proof {
        assert((x as u128) * (FP_ONE as u128) <= (FP_MAX as u128) * (FP_ONE as u128))
            by (nonlinear_arith)
            requires
                x as u128 <= FP_MAX as u128,
        ;
    }
    let v: u128 = (x as u128) * (FP_ONE as u128);
    let mut lo: u64 = 0;
    let mut hi: u64 = 17592186044416;
    proof {
        assert((hi as int) * (hi as int) > (FP_MAX as int) * (FP_ONE as int)) by (nonlinear_arith)
            requires
                hi == 17592186044416u64,
        ;
        assert((x as int) * (FP_ONE as int) <= (FP_MAX as int) * (FP_ONE as int))
            by (nonlinear_arith)
            requires
                0 <= x <= FP_MAX,
        ;
    }
    while hi - lo > 1
        invariant
            lo < hi <= 17592186044416,
            v == (x as int) * (FP_ONE as int),
            (lo as int) * (lo as int) <= v as int,
            (v as int) < (hi as int) * (hi as int),
        decreases hi - lo,
    {
        let mid = lo + (hi - lo) / 2;
        proof {
            assert((mid as u128) * (mid as u128) <= 309485009821345068724781056u128)
                by (nonlinear_arith)
                requires
                    mid as u128 <= 17592186044416u128,
            ;
        }
        if (mid as u128) * (mid as u128) <= v {
            lo = mid;
        } else {
            hi = mid;
        }
    }
    proof {
        assert(lo as int + 1 == hi as int);
        assert(lo <= 17592186044416 < FP_MAX);
    }
    lo as i64
}

} // verus!
