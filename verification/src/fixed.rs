//! Saturating fixed-point scalar arithmetic.
//!
//! Every scalar quantity of the simulation (position and velocity
//! components, spring lengths, constants) is an `i64` counting `1/SCALE`
//! units.  Sums saturate at the `i64` range instead of wrapping, and
//! products and quotients round toward zero, so each operation is a total
//! function with an exact specification.

use vstd::prelude::*;

verus! {

/// Fixed-point steps per unit: a scalar `s` represents the value `s / SCALE`.
pub const SCALE: i64 = 1048576;

/// Clamp a mathematical integer into the `i64` range.
pub open spec fn sat64(x: int) -> int {
    if x > i64::MAX as int {
        i64::MAX as int
    } else if x < i64::MIN as int {
        i64::MIN as int
    } else {
        x
    }
}

/// Division rounding toward zero (the semantics of Rust's `/`) for a
/// positive divisor.
pub open spec fn tdiv(a: int, b: int) -> int
    recommends
        b > 0,
{
    if a >= 0 {
        a / b
    } else {
        -((-a) / b)
    }
}

/// Saturating addition.
pub fn sat_add(a: i64, b: i64) -> (r: i64)
    ensures
        r as int == sat64(a + b),
{
    match a.checked_add(b) {
        Some(s) => s,
        None => {
            if a >= 0 {
                i64::MAX
            } else {
                i64::MIN
            }
        },
    }
}

/// Saturating negation.
pub fn sat_neg(a: i64) -> (r: i64)
    ensures
        r as int == sat64(-(a as int)),
{
    if a == i64::MIN {
        i64::MAX
    } else {
        -a
    }
}

/// Saturating subtraction.
pub fn sat_sub(a: i64, b: i64) -> (r: i64)
    ensures
        r as int == sat64(a - b),
{
    match a.checked_sub(b) {
        Some(s) => s,
        None => {
            if a >= 0 {
                i64::MAX
            } else {
                i64::MIN
            }
        },
    }
}

/// The product of two `i64` values fits in `i128`.
pub proof fn lemma_mul_i64_fits(a: int, b: int)
    requires
        i64::MIN <= a <= i64::MAX,
        i64::MIN <= b <= i64::MAX,
    ensures
        i128::MIN < a * b < i128::MAX,
{
    assert(i128::MIN < a * b < i128::MAX) by (nonlinear_arith)
        requires
            -0x8000_0000_0000_0000 <= a <= 0x7fff_ffff_ffff_ffff,
            -0x8000_0000_0000_0000 <= b <= 0x7fff_ffff_ffff_ffff,
    ;
}

/// Clamp an `i128` into the `i64` range.
pub(crate) fn sat_narrow(q: i128) -> (r: i64)
    ensures
        r as int == sat64(q as int),
{
    if q > i64::MAX as i128 {
        i64::MAX
    } else if q < i64::MIN as i128 {
        i64::MIN
    } else {
        q as i64
    }
}

/// Truncating division of an `i128` by a positive `i64`, saturated into `i64`.
pub(crate) fn tdiv_narrow(p: i128, b: i64) -> (r: i64)
    requires
        b > 0,
    ensures
        r as int == sat64(tdiv(p as int, b as int)),
{
    let q = match p.checked_div(b as i128) {
        Some(q) => q,
        None => 0,  // unreachable: the divisor is positive
    };
    proof {
        if p as int >= 0 {
            assert(q == tdiv(p as int, b as int));
        } else {
            assert(q as int == ((p as int) * -1) / (b as int) * -1);
            assert((p as int) * -1 == -(p as int)) by (nonlinear_arith);
            assert(q == tdiv(p as int, b as int));
        }
    }
    sat_narrow(q)
}

/// Fixed-point product: `a * b / SCALE`, rounded toward zero, saturated.
pub fn fx_mul(a: i64, b: i64) -> (r: i64)
    ensures
        r as int == sat64(tdiv(a as int * b as int, SCALE as int)),
{
    proof {
        lemma_mul_i64_fits(a as int, b as int);
    }
    let p: i128 = (a as i128) * (b as i128);
    tdiv_narrow(p, SCALE)
}

/// Fixed-point quotient: `a * SCALE / b`, rounded toward zero, saturated.
pub fn fx_div(a: i64, b: i64) -> (r: i64)
    requires
        b > 0,
    ensures
        r as int == sat64(tdiv(a as int * SCALE as int, b as int)),
{
    proof {
        lemma_mul_i64_fits(a as int, SCALE as int);
    }
    let p: i128 = (a as i128) * (SCALE as i128);
    tdiv_narrow(p, b)
}

/// A whole count as a fixed-point scalar.
pub fn fx_of_count(c: usize) -> (r: i64)
    ensures
        r as int == sat64(c * SCALE),
        r >= 0,
{
    proof {
        assert(0 <= c * SCALE < i128::MAX) by (nonlinear_arith)
            requires
                0 <= c <= usize::MAX,
        ;
    }
    let p: i128 = (c as i128) * (SCALE as i128);
    sat_narrow(p)
}

/// Plain truncating division by a positive divisor (no rescaling).
pub fn div_by(a: i64, b: i64) -> (r: i64)
    requires
        b > 0,
    ensures
        r as int == tdiv(a as int, b as int),
{
    let r = tdiv_narrow(a as i128, b);
    proof {
        if a >= 0 {
            assert(tdiv(a as int, b as int) <= a as int) by (nonlinear_arith)
                requires
                    a >= 0,
                    b > 0,
                    tdiv(a as int, b as int) == (a as int) / (b as int),
            ;
            assert(tdiv(a as int, b as int) >= 0) by (nonlinear_arith)
                requires
                    a >= 0,
                    b > 0,
                    tdiv(a as int, b as int) == (a as int) / (b as int),
            ;
        } else {
            assert(0 <= (-(a as int)) / (b as int) <= -(a as int)) by (nonlinear_arith)
                requires
                    a < 0,
                    b > 0,
            ;
        }
    }
    r
}

} // verus!
