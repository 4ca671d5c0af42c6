//! Saturating Q32.32 fixed-point arithmetic.
//!
//! A real number `x` is represented by the `i64` value `round(x * 2^32)`.
//! Every operation clamps its result into `[-FP_MAX, FP_MAX]`, so the
//! executable functions are total: no operation can overflow or panic, and
//! each one returns exactly the value of its specification-level mirror
//! (`sadd`, `ssub`, `smul`, `sdiv`, `sdivi`). Magnitudes are computed in
//! unsigned arithmetic and the sign is reapplied, which makes every rounding
//! step a truncation toward zero.

use vstd::prelude::*;

verus! {

/// One real unit in Q32.32: 2^32.
pub const FP_ONE: i64 = 4294967296;

/// Largest magnitude any fixed-point value of this library may take: 2^55.
pub const FP_MAX: i64 = 36028797018963968;

/// The range every fixed-point value stays in.
pub open spec fn fp_bounded(x: int) -> bool {
    -(FP_MAX as int) <= x <= FP_MAX as int
}

/// Saturation into the fixed-point range.
pub open spec fn sclamp(x: int) -> int {
    if x > FP_MAX as int {
        FP_MAX as int
    } else if x < -(FP_MAX as int) {
        -(FP_MAX as int)
    } else {
        x
    }
}

/// Mathematical absolute value.
pub open spec fn sabs(x: int) -> int {
    if x >= 0 {
        x
    } else {
        -x
    }
}

/// Saturating fixed-point sum.
pub open spec fn sadd(a: int, b: int) -> int {
    sclamp(a + b)
}

/// Saturating fixed-point difference.
pub open spec fn ssub(a: int, b: int) -> int {
    sclamp(a - b)
}

/// Saturating fixed-point product: the scaled product of the magnitudes,
/// truncated toward zero, with the sign of the exact product.
pub open spec fn smul(a: int, b: int) -> int {
    let m = (sabs(a) * sabs(b)) / (FP_ONE as int);
    if (a >= 0) == (b >= 0) {
        sclamp(m)
    } else {
        sclamp(-m)
    }
}

/// Saturating fixed-point quotient, truncated toward zero; division by zero
/// yields zero (callers that care test the divisor first).
pub open spec fn sdiv(a: int, b: int) -> int {
    if b == 0 {
        0
    } else {
        let m = (sabs(a) * (FP_ONE as int)) / sabs(b);
        if (a >= 0) == (b >= 0) {
            sclamp(m)
        } else {
            sclamp(-m)
        }
    }
}

/// Division of a fixed-point value by a plain positive integer, truncated
/// toward zero; division by zero yields zero.
pub open spec fn sdivi(a: int, n: int) -> int {
    if n <= 0 {
        0
    } else if a >= 0 {
        sclamp(a / n)
    } else {
        sclamp(-((-a) / n))
    }
}

/// Magnitude of an `i64`, exact also for `i64::MIN`.
#[inline(always)]
pub fn fp_abs(a: i64) -> (r: u64)
    ensures
        r == sabs(a as int),
{
    if a >= 0 {
        a as u64
    } else {
        (-(a + 1)) as u64 + 1
    }
}

/// Saturation of a wide intermediate result into the fixed-point range.
#[inline(always)]
pub fn fp_clamp_wide(x: i128) -> (r: i64)
    ensures
        r == sclamp(x as int),
{
    if x > FP_MAX as i128 {
        FP_MAX
    } else if x < -(FP_MAX as i128) {
        -FP_MAX
    } else {
        x as i64
    }
}

/// Saturating sum.
#[inline(always)]
pub fn fadd(a: i64, b: i64) -> (r: i64)
    ensures
        r == sadd(a as int, b as int),
{
    fp_clamp_wide(a as i128 + b as i128)
}

/// Saturating difference.
#[inline(always)]
pub fn fsub(a: i64, b: i64) -> (r: i64)
    ensures
        r == ssub(a as int, b as int),
{
    fp_clamp_wide(a as i128 - b as i128)
}

/// Exact negation (the range is symmetric, so no clamping is needed on
/// values that are already in range; out-of-range inputs are clamped).
#[inline(always)]
pub fn fneg(a: i64) -> (r: i64)
    ensures
        r == sclamp(-(a as int)),
{
    fp_clamp_wide(-(a as i128))
}

/// Reapply a sign to a clamped magnitude.
#[inline(always)]
fn apply_sign(mag: u64, neg: bool) -> (r: i64)
    requires
        mag <= FP_MAX as u64,
    ensures
        r == if neg {
            -(mag as int)
        } else {
            mag as int
        },
{
    if neg {
        -(mag as i64)
    } else {
        mag as i64
    }
}

/// Clamp an unsigned wide magnitude to `FP_MAX`.
#[inline(always)]
fn clamp_mag(m: u128) -> (r: u64)
    ensures
        r == sclamp(m as int) || (m <= FP_MAX as u128 && r == m),
        r == if m > FP_MAX as u128 {
            FP_MAX as u64
        } else {
            m as u64
        },
        r <= FP_MAX as u64,
{
    if m > FP_MAX as u128 {
        FP_MAX as u64
    } else {
        m as u64
    }
}

/// Saturating product.
#[inline(always)]
pub fn fmul(a: i64, b: i64) -> (r: i64)
    ensures
        r == smul(a as int, b as int),
{
    let neg = (a >= 0) != (b >= 0);
    let aa = fp_abs(a);
    let bb = fp_abs(b);
    assert((aa as u128) * (bb as u128) <= (u64::MAX as u128) * (u64::MAX as u128))
        by (nonlinear_arith)
        requires
            aa as u128 <= u64::MAX as u128,
            bb as u128 <= u64::MAX as u128,
    ;
    let p: u128 = (aa as u128) * (bb as u128);
    let m: u128 = p / (FP_ONE as u128);
    let mc = clamp_mag(m);
    assert(m == (sabs(a as int) * sabs(b as int)) / (FP_ONE as int));
    apply_sign(mc, neg)
}

/// Saturating quotient; returns zero when the divisor is zero.
#[inline(always)]
pub fn fdiv(a: i64, b: i64) -> (r: i64)
    ensures
        r == sdiv(a as int, b as int),
{
    if b == 0 {
        return 0;
    }
    let neg = (a >= 0) != (b >= 0);
    let ab = fp_abs(a);
    assert((ab as u128) * (FP_ONE as u128) <= (u64::MAX as u128) * (FP_ONE as u128))
        by (nonlinear_arith)
        requires
            ab as u128 <= u64::MAX as u128,
    ;
    let p: u128 = (ab as u128) * (FP_ONE as u128);
    let m: u128 = p / (fp_abs(b) as u128);
    let mc = clamp_mag(m);
    apply_sign(mc, neg)
}

/// Saturating division by a plain positive integer; zero when `n == 0`.
#[inline(always)]
pub fn fdivi(a: i64, n: u64) -> (r: i64)
    ensures
        r == sdivi(a as int, n as int),
{
    if n == 0 {
        return 0;
    }
    let neg = a < 0;
    let m: u64 = fp_abs(a) / n;
    let mc = if m > FP_MAX as u64 {
        FP_MAX as u64
    } else {
        m
    };
    assert(mc == sclamp(m as int) || (m <= FP_MAX as u64 && mc == m));
    apply_sign(mc, neg)
}

/// A plain integer as a fixed-point value (saturating).
#[inline(always)]
pub fn fp_from_int(v: i64) -> (r: i64)
    ensures
        r == sclamp(v as int * (FP_ONE as int)),
{
    let neg = v < 0;
    let mag = fp_abs(v);
    assert((mag as u128) * (FP_ONE as u128) <= (u64::MAX as u128) * (FP_ONE as u128))
        by (nonlinear_arith)
        requires
            mag as u128 <= u64::MAX as u128,
    ;
    let wide: u128 = (mag as u128) * (FP_ONE as u128);
    let mc = clamp_mag(wide);
    proof {
        assert(wide as int == sabs(v as int) * (FP_ONE as int));
        if v >= 0 {
            assert(v as int * (FP_ONE as int) == wide as int);
        } else {
            assert(v as int * (FP_ONE as int) == -(wide as int)) by (nonlinear_arith)
                requires
                    wide as int == -(v as int) * (FP_ONE as int),
            ;
        }
    }
    apply_sign(mc, neg)
}

/// The exact ratio `num / den` as a fixed-point value (truncated toward
/// zero); zero when `den == 0`.
pub fn fp_from_ratio(num: i64, den: u64) -> (r: i64)
    ensures
        r == sdivi(sclamp(num as int * (FP_ONE as int)), den as int),
{
    fdivi(fp_from_int(num), den)
}

/// Every clamped value is bounded.
pub proof fn lemma_sclamp_bounded(x: int)
    ensures
        fp_bounded(sclamp(x)),
        fp_bounded(x) ==> sclamp(x) == x,
{
}


/// Monotone bound on the product: bounding both operand magnitudes bounds
/// the product's magnitude.
pub proof fn lemma_smul_bound(a: int, b: int, ca: int, cb: int)
    requires
        sabs(a) <= ca,
        sabs(b) <= cb,
    ensures
        sabs(smul(a, b)) <= (ca * cb) / (FP_ONE as int),
{
    let m = (sabs(a) * sabs(b)) / (FP_ONE as int);
    assert(sabs(a) * sabs(b) <= ca * cb) by (nonlinear_arith)
        requires
            0 <= sabs(a) <= ca,
            0 <= sabs(b) <= cb,
    ;
    assert(m <= (ca * cb) / (FP_ONE as int)) by {
        vstd::arithmetic::div_mod::lemma_div_is_ordered(
            sabs(a) * sabs(b),
            ca * cb,
            FP_ONE as int,
        );
    }
    assert(sabs(a) * sabs(b) >= 0) by (nonlinear_arith)
        requires
            sabs(a) >= 0,
            sabs(b) >= 0,
    ;
    vstd::arithmetic::div_mod::lemma_div_pos_is_pos(sabs(a) * sabs(b), FP_ONE as int);
}


/// The product of values that are not negative is not negative; a square is
/// never negative.
pub proof fn lemma_smul_nonneg(a: int, b: int)
    ensures
        a >= 0 && b >= 0 ==> smul(a, b) >= 0,
        smul(a, a) >= 0,
{
    assert(sabs(a) * sabs(b) >= 0) by (nonlinear_arith)
        requires
            sabs(a) >= 0,
            sabs(b) >= 0,
    ;
    vstd::arithmetic::div_mod::lemma_div_pos_is_pos(sabs(a) * sabs(b), FP_ONE as int);
    assert(sabs(a) * sabs(a) >= 0) by (nonlinear_arith)
        requires
            sabs(a) >= 0,
    ;
    vstd::arithmetic::div_mod::lemma_div_pos_is_pos(sabs(a) * sabs(a), FP_ONE as int);
}

/// Zero is absorbing for the product.
pub proof fn lemma_smul_zero(a: int)
    ensures
        smul(a, 0) == 0,
        smul(0, a) == 0,
{
    assert(sabs(a) * 0 == 0) by (nonlinear_arith);
    assert(0 * sabs(a) == 0) by (nonlinear_arith);
}

} // verus!
