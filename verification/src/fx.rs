//! Fixed-point scalar arithmetic.
//!
//! A scalar is an `i64` holding `value * SCALE`, so `SCALE` itself stands
//! for one. Multiplication and division round toward zero; the spec
//! functions `mul_fx`, `div_fx`, `divc_fx` and `sqrt_fx` state the result
//! of each operation exactly, and all geometric contracts are written in
//! terms of them.

use vstd::prelude::*;
use vstd::arithmetic::div_mod::{lemma_div_is_ordered, lemma_div_multiples_vanish};

verus! {

/// The fixed-point unit: this many raw ticks make the scalar one.
pub const SCALE: i64 = 65536;

/// Saturation bound for clamped division: far beyond any ray parameter
/// the tracer works with, so clamping never changes a hit verdict.
pub const T_HUGE: i64 = 281474976710656;

/// Magnitude (absolute value) as an `int`.
pub open spec fn mag(x: int) -> int {
    if x < 0 {
        -x
    } else {
        x
    }
}

/// Truncating (round toward zero) division, the rounding every
/// fixed-point operation uses. `d` must not be zero.
pub open spec fn tdiv(n: int, d: int) -> int {
    if (n >= 0) == (d >= 0) {
        mag(n) / mag(d)
    } else {
        -(mag(n) / mag(d))
    }
}

/// Fixed-point product: `(a * b) / SCALE`, rounded toward zero.
pub open spec fn mul_fx(a: int, b: int) -> int {
    tdiv(a * b, SCALE as int)
}

/// Fixed-point quotient: `(a * SCALE) / b`, rounded toward zero.
pub open spec fn div_fx(a: int, b: int) -> int {
    tdiv(a * SCALE, b)
}

pub open spec fn clamped(x: int, lo: int, hi: int) -> int {
    if x < lo {
        lo
    } else if x > hi {
        hi
    } else {
        x
    }
}

/// Fixed-point quotient saturated at `T_HUGE`: total for every nonzero
/// divisor, however small.
pub open spec fn divc_fx(a: int, b: int) -> int {
    clamped(div_fx(a, b), -(T_HUGE as int), T_HUGE as int)
}

/// Fixed-point square root: the integer `r` with
/// `r * r <= x * SCALE < (r + 1) * (r + 1)`, i.e. `sqrt(x / SCALE) * SCALE`
/// rounded down.
pub open spec fn sqrt_fx(x: int) -> int {
    choose|r: int|
        r >= 0 && #[trigger] (r * r) <= x * (SCALE as int) && x * (SCALE as int) < (r + 1) * (r
            + 1)
}

pub open spec fn fits_i64(x: int) -> bool {
    i64::MIN <= x <= i64::MAX
}

pub open spec fn min_i(a: int, b: int) -> int {
    if a <= b {
        a
    } else {
        b
    }
}

pub open spec fn max_i(a: int, b: int) -> int {
    if a >= b {
        a
    } else {
        b
    }
}

/// Comparing squares bounds the root.
pub proof fn lemma_sq_le(r: int, k: int)
    requires
        r >= 0,
        k >= 0,
        r * r < (k + 1) * (k + 1),
    ensures
        r <= k,
{
    assert(r <= k) by (nonlinear_arith)
        requires
            r >= 0,
            k >= 0,
            r * r < (k + 1) * (k + 1),
    ;
}

/// Product bound: magnitudes multiply.
pub proof fn lemma_abs_mul_le(a: int, b: int, m: int, n: int)
    requires
        mag(a) <= m,
        mag(b) <= n,
    ensures
        mag(a * b) <= m * n,
{
    assert(mag(a * b) <= m * n) by (nonlinear_arith)
        requires
            mag(a) <= m,
            mag(b) <= n,
    {
        assert(mag(a * b) == mag(a) * mag(b));
    }
}

/// Truncating division shrinks magnitudes: `|n / d| <= |n|` for `d >= 1`,
/// and more precisely `|tdiv(n, d)| <= m / d` whenever `|n| <= m`.
pub proof fn lemma_tdiv_bound(n: int, d: int, m: int)
    requires
        mag(n) <= m,
        d >= 1,
    ensures
        mag(tdiv(n, d)) <= m / d,
{
    lemma_div_is_ordered(mag(n), m, d);
    assert(mag(n) / d >= 0) by (nonlinear_arith)
        requires
            mag(n) >= 0,
            d >= 1,
    ;
}

/// Magnitude bound for a fixed-point product.
pub proof fn lemma_mul_fx_bound(a: int, b: int, m: int, n: int)
    requires
        mag(a) <= m,
        mag(b) <= n,
    ensures
        mag(mul_fx(a, b)) <= (m * n) / (SCALE as int),
{
    lemma_abs_mul_le(a, b, m, n);
    lemma_tdiv_bound(a * b, SCALE as int, m * n);
}

/// A fixed-point product of nonnegative factors is nonnegative.
pub proof fn lemma_mul_fx_nonneg(a: int, b: int)
    requires
        a >= 0,
        b >= 0,
    ensures
        mul_fx(a, b) >= 0,
{
    assert(a * b >= 0) by (nonlinear_arith)
        requires
            a >= 0,
            b >= 0,
    ;
}

/// Multiplying two scalars in `[0, 1]` stays in `[0, 1]`: attenuation
/// never brightens a color.
pub proof fn lemma_mul_fx_unit(a: int, b: int)
    requires
        0 <= a <= SCALE,
        0 <= b <= SCALE,
    ensures
        0 <= mul_fx(a, b) <= SCALE,
{
    lemma_mul_fx_nonneg(a, b);
    lemma_mul_fx_bound(a, b, SCALE as int, SCALE as int);
}

/// Multiplying by one (`SCALE`) is exact.
pub proof fn lemma_mul_fx_one(x: int)
    ensures
        mul_fx(SCALE as int, x) == x,
{
    lemma_div_multiples_vanish(mag(x), SCALE as int);
    assert(mag((SCALE as int) * x) == (SCALE as int) * mag(x)) by (nonlinear_arith);
}

/// A fixed-point square is nonnegative.
pub proof fn lemma_mul_fx_sq_nonneg(x: int)
    ensures
        mul_fx(x, x) >= 0,
{
    assert(x * x >= 0) by (nonlinear_arith);
}

/// A quotient whose numerator magnitude is at most the (positive)
/// denominator is at most one in fixed point.
pub proof fn lemma_div_fx_unit(a: int, b: int)
    requires
        b >= 1,
        mag(a) <= b,
    ensures
        mag(div_fx(a, b)) <= SCALE,
{
    lemma_abs_mul_le(a, SCALE as int, mag(a), SCALE as int);
    lemma_div_is_ordered(mag(a * SCALE), b * (SCALE as int), b);
    assert(mag(a) * (SCALE as int) <= b * (SCALE as int)) by (nonlinear_arith)
        requires
            mag(a) <= b,
    ;
    lemma_div_multiples_vanish(SCALE as int, b);
    assert(mag(a * SCALE) == mag(a) * (SCALE as int)) by (nonlinear_arith);
}

/// Truncating division is monotone in the numerator.
pub proof fn lemma_tdiv_monotone(n1: int, n2: int, d: int)
    requires
        n1 <= n2,
        d >= 1,
    ensures
        tdiv(n1, d) <= tdiv(n2, d),
{
    if n1 >= 0 {
        lemma_div_is_ordered(n1, n2, d);
    } else if n2 < 0 {
        lemma_div_is_ordered(-n2, -n1, d);
    } else {
        assert((-n1) / d >= 0) by (nonlinear_arith)
            requires
                -n1 >= 0,
                d >= 1,
        ;
        assert(n2 / d >= 0) by (nonlinear_arith)
            requires
                n2 >= 0,
                d >= 1,
        ;
    }
}

/// The saturated fixed-point quotient is monotone in the numerator,
/// for a positive divisor.
pub proof fn lemma_divc_monotone(a1: int, a2: int, b: int)
    requires
        a1 <= a2,
        b >= 1,
    ensures
        divc_fx(a1, b) <= divc_fx(a2, b),
{
    lemma_tdiv_monotone(a1 * SCALE, a2 * SCALE, b);
    assert(a1 * SCALE <= a2 * SCALE) by (nonlinear_arith)
        requires
            a1 <= a2,
    ;
}

/// An integer square root exists for every nonnegative number.
pub proof fn lemma_isqrt_exists(n: int)
    requires
        n >= 0,
    ensures
        exists|r: int| r >= 0 && #[trigger] (r * r) <= n && n < (r + 1) * (r + 1),
    decreases n,
{
    if n == 0 {
        assert(0int * 0int == 0 && (0int + 1) * (0int + 1) == 1) by (nonlinear_arith);
        assert(0 >= 0 && (0int * 0int) <= 0 && 0 < (0int + 1) * (0int + 1));
    } else {
        lemma_isqrt_exists(n - 1);
        let r = choose|r: int| r >= 0 && #[trigger] (r * r) <= n - 1 && n - 1 < (r + 1) * (r + 1);
        if (r + 1) * (r + 1) <= n {
            assert(n == (r + 1) * (r + 1));
            assert((r + 1) * (r + 1) < (r + 2) * (r + 2)) by (nonlinear_arith)
                requires
                    r >= 0,
            ;
            assert((r + 1) >= 0 && ((r + 1) * (r + 1)) <= n && n < (r + 2) * (r + 2));
        } else {
            assert(r >= 0 && (r * r) <= n && n < (r + 1) * (r + 1));
        }
    }
}

/// For a nonnegative argument, `sqrt_fx` is the floor square root of
/// the scaled value.
pub proof fn lemma_sqrt_fx_props(x: int)
    requires
        x >= 0,
    ensures
        sqrt_fx(x) >= 0,
        sqrt_fx(x) * sqrt_fx(x) <= x * SCALE,
        x * (SCALE as int) < (sqrt_fx(x) + 1) * (sqrt_fx(x) + 1),
{
    assert(x * (SCALE as int) >= 0) by (nonlinear_arith)
        requires
            x >= 0,
    ;
    lemma_isqrt_exists(x * (SCALE as int));
}

/// The square-root witness is unique, which ties the executable result
/// to `sqrt_fx`.
pub proof fn lemma_sqrt_fx_is(x: int, r: int)
    requires
        r >= 0,
        r * r <= x * (SCALE as int),
        x * (SCALE as int) < (r + 1) * (r + 1),
    ensures
        sqrt_fx(x) == r,
{
    assert(exists|q: int|
        q >= 0 && #[trigger] (q * q) <= x * (SCALE as int) && x * (SCALE as int) < (q + 1) * (q
            + 1)) by {
        assert(r >= 0 && (r * r) <= x * (SCALE as int) && x * (SCALE as int) < (r + 1) * (r + 1));
    }
    let q = sqrt_fx(x);
    assert(q >= 0 && q * q <= x * (SCALE as int) && x * (SCALE as int) < (q + 1) * (q + 1));
    assert(q == r) by (nonlinear_arith)
        requires
            q >= 0,
            r >= 0,
            q * q <= x * (SCALE as int),
            x * (SCALE as int) < (q + 1) * (q + 1),
            r * r <= x * (SCALE as int),
            x * (SCALE as int) < (r + 1) * (r + 1),
    ;
}

/// Divides a wide intermediate by `SCALE`, rounding toward zero. Shared
/// by the scalar product and the vector dot product.
pub fn scale_down(p: i128) -> (r: i64)
    requires
        p > i128::MIN,
        fits_i64(tdiv(p as int, SCALE as int)),
    ensures
        r as int == tdiv(p as int, SCALE as int),
{
    let neg: bool = p < 0;
    let m: u128 = if neg {
        (-p) as u128
    } else {
        p as u128
    };
    let q: u128 = m / (SCALE as u128);
    proof {
        assert(m == mag(p as int));
        assert(q == mag(p as int) / (SCALE as int));
    }
    if neg {
        (-(q as i128)) as i64
    } else {
        (q as i128) as i64
    }
}

/// Exact fixed-point product; the requires rules out `i64` overflow.
pub fn fmul(a: i64, b: i64) -> (r: i64)
    requires
        fits_i64(mul_fx(a as int, b as int)),
    ensures
        r as int == mul_fx(a as int, b as int),
{
    proof {
        lemma_abs_mul_le(a as int, b as int, 0x8000000000000000, 0x8000000000000000);
        assert(mag(a as int * b as int) <= 0x40000000000000000000000000000000);
    }
    let p: i128 = (a as i128) * (b as i128);
    scale_down(p)
}

/// Exact fixed-point quotient; the divisor must be nonzero and the
/// mathematical result must fit in `i64`.
pub fn fdiv(a: i64, b: i64) -> (r: i64)
    requires
        b != 0,
        fits_i64(div_fx(a as int, b as int)),
    ensures
        r as int == div_fx(a as int, b as int),
{
    proof {
        lemma_abs_mul_le(a as int, SCALE as int, 0x8000000000000000, 0x10000);
    }
    let p: i128 = (a as i128) * (SCALE as i128);
    let neg: bool = (a < 0) != (b < 0);
    let m: u128 = if p < 0 {
        (-p) as u128
    } else {
        p as u128
    };
    let d: u128 = if b < 0 {
        (-(b as i128)) as u128
    } else {
        b as u128
    };
    let q: u128 = m / d;
    proof {
        assert(m == mag(a as int * SCALE as int));
        assert(d == mag(b as int));
        assert(q == mag(a as int * SCALE as int) / mag(b as int));
        assert((a as int * SCALE as int >= 0) == (a as int >= 0)) by (nonlinear_arith);
    }
    if a == 0 {
        0
    } else if neg {
        (-(q as i128)) as i64
    } else {
        (q as i128) as i64
    }
}

/// Fixed-point quotient saturated at `T_HUGE`: total for every nonzero
/// divisor, used where a near-parallel ray would otherwise overflow.
pub fn fdivc(a: i64, b: i64) -> (r: i64)
    requires
        b != 0,
    ensures
        r as int == divc_fx(a as int, b as int),
{
    proof {
        lemma_abs_mul_le(a as int, SCALE as int, 0x8000000000000000, 0x10000);
    }
    let p: i128 = (a as i128) * (SCALE as i128);
    let neg: bool = (a < 0) != (b < 0);
    let m: u128 = if p < 0 {
        (-p) as u128
    } else {
        p as u128
    };
    let d: u128 = if b < 0 {
        (-(b as i128)) as u128
    } else {
        b as u128
    };
    let q: u128 = m / d;
    let qc: u128 = if q > T_HUGE as u128 {
        T_HUGE as u128
    } else {
        q
    };
    proof {
        assert(m == mag(a as int * SCALE as int));
        assert(d == mag(b as int));
        assert(q == mag(a as int * SCALE as int) / mag(b as int));
        assert((a as int * SCALE as int >= 0) == (a as int >= 0)) by (nonlinear_arith);
    }
    if a == 0 {
        0
    } else if neg {
        (-(qc as i128)) as i64
    } else {
        (qc as i128) as i64
    }
}

/// Exact fixed-point square root of a nonnegative scalar, by binary
/// search for the greatest `r` with `r * r <= x * SCALE`.
pub fn fsqrt(x: i64) -> (r: i64)
    requires
        x >= 0,
    ensures
        r as int == sqrt_fx(x as int),
        r >= 0,
        (r as int) * (r as int) <= (x as int) * (SCALE as int),
        (x as int) * (SCALE as int) < ((r as int) + 1) * ((r as int) + 1),
{
    let n: u128 = (x as u128) * (SCALE as u128);
    let mut lo: u128 = 0;
    let mut hi: u128 = 1099511627776;
    proof {
        assert((x as u128) * (SCALE as u128) <= 0x8000000000000000u128 * 0x10000u128)
            by (nonlinear_arith)
            requires
                (x as u128) <= 0x8000000000000000u128,
                (SCALE as u128) == 0x10000u128,
        ;
        assert((hi + 1) * (hi + 1) > n) by (nonlinear_arith)
            requires
                n <= 0x8000000000000000u128 * 0x10000u128,
                hi == 1099511627776u128,
        ;
    }
    while lo < hi
        invariant
            lo <= hi <= 1099511627776,
            lo * lo <= n,
            n < (hi + 1) * (hi + 1),
        decreases hi - lo,
    {
        let mid: u128 = lo + (hi - lo + 1) / 2;
        proof {
            assert(lo < mid <= hi);
            assert(mid * mid <= 1099511627777u128 * 1099511627777u128) by (nonlinear_arith)
                requires
                    mid <= 1099511627777u128,
            ;
        }
        if mid * mid <= n {
            lo = mid;
        } else {
            hi = mid - 1;
            proof {
                assert(n < (hi + 1) * (hi + 1));
            }
        }
    }
    proof {
        lemma_sqrt_fx_is(x as int, lo as int);
    }
    lo as i64
}

/// Componentless helpers the geometry shares.
pub fn fmin(a: i64, b: i64) -> (r: i64)
    ensures
        r == if a as int <= b as int { a } else { b },
{
    if a <= b {
        a
    } else {
        b
    }
}

pub fn fmax(a: i64, b: i64) -> (r: i64)
    ensures
        r == if a as int >= b as int { a } else { b },
{
    if a >= b {
        a
    } else {
        b
    }
}

pub fn fabs(a: i64) -> (r: i64)
    requires
        a != i64::MIN,
    ensures
        r as int == mag(a as int),
{
    if a < 0 {
        -a
    } else {
        a
    }
}

pub fn fclamp(x: i64, lo: i64, hi: i64) -> (r: i64)
    requires
        lo <= hi,
    ensures
        r as int == clamped(x as int, lo as int, hi as int),
{
    if x < lo {
        lo
    } else if x > hi {
        hi
    } else {
        x
    }
}

} // verus!
