//! Triangle geometry for hierarchical placement: validating three target
//! side lengths and laying two circles' intersection out in the plane.

use vstd::prelude::*;
use crate::error::FFIError;
use crate::fixed::{sat64, tdiv, sat_add, sat_sub, fx_div, fx_mul, SCALE};
use crate::vec3::{Vec3Fx, isqrt, isqrt_spec, mul_div};

verus! {

/// Floor square root in fixed-point units: for a scalar `x` counting
/// `1/SCALE` units, the result counts `1/SCALE` units of `sqrt(x/SCALE)`.
pub open spec fn sqrt_fx_spec(x: int) -> int
    recommends
        x >= 0,
{
    isqrt_spec(x * SCALE)
}

/// Fixed-point square root of a non-negative scalar.
pub fn sqrt_fx(x: i64) -> (r: i64)
    requires
        x >= 0,
    ensures
        r as int == sqrt_fx_spec(x as int),
        r >= 0,
{
    proof {
        assert(0 <= x * SCALE < u128::MAX) by (nonlinear_arith)
            requires
                0 <= x <= i64::MAX,
        ;
    }
    let n: u128 = (x as u128) * (SCALE as u128);
    let root = isqrt(n);
    proof {
        assert((root as int) * (root as int) <= x * SCALE);
        assert(x * SCALE < 0x400_0000_0000_0000_0000_0000int) by (nonlinear_arith)
            requires
                0 <= x <= i64::MAX,
        ;
        if root >= 0x20_0000_0000_0000u64 {
            assert((root as int) * (root as int) >= 0x400_0000_0000_0000_0000_0000int)
                by (nonlinear_arith)
                requires
                    root >= 0x20_0000_0000_0000u64,
            ;
            assert(false);
        }
    }
    root as i64
}

/// The three side lengths can close a (possibly degenerate) triangle.
pub open spec fn valid_triangle_spec(a: int, b: int, c: int) -> bool {
    &&& a >= 0 && b >= 0 && c >= 0
    &&& a <= b + c
    &&& b <= a + c
    &&& c <= a + b
}

/// Triangle-inequality check on three side lengths.
pub fn is_valid_triangle(a: i64, b: i64, c: i64) -> (r: bool)
    ensures
        r == valid_triangle_spec(a as int, b as int, c as int),
{
    a >= 0 && b >= 0 && c >= 0 && a as i128 <= b as i128 + c as i128 && b as i128 <= a as i128
        + c as i128 && c as i128 <= a as i128 + b as i128
}

/// The three normalization-scaled target distances of one split: child to
/// child, parent to left child, parent to right child.
pub open spec fn triangle_targets_spec(
    raw_children: int,
    raw_left: int,
    raw_right: int,
    max_len: int,
    scalar: int,
) -> (int, int, int) {
    (
        crate::spring::normalized_target_spec(raw_children, max_len, scalar),
        crate::spring::normalized_target_spec(raw_left, max_len, scalar),
        crate::spring::normalized_target_spec(raw_right, max_len, scalar),
    )
}

/// Normalize and scale the three raw source-space distances of a split.
pub fn calc_triangle_distances(
    raw_children: i64,
    raw_left: i64,
    raw_right: i64,
    max_len: i64,
    scalar: i64,
) -> (r: (i64, i64, i64))
    ensures
        (r.0 as int, r.1 as int, r.2 as int) == triangle_targets_spec(
            raw_children as int,
            raw_left as int,
            raw_right as int,
            max_len as int,
            scalar as int,
        ),
{
    let d = if max_len < 1 {
        1
    } else {
        max_len
    };
    let c = fx_mul(fx_div(raw_children, d), scalar);
    let l = fx_mul(fx_div(raw_left, d), scalar);
    let rr = fx_mul(fx_div(raw_right, d), scalar);
    (c, l, rr)
}

/// Where the circle around `p1` of radius `r1` meets the circle around `p2`
/// of radius `r2` (with `d` the distance from `p1` to `p2`), in the plane
/// of constant `z`; of the two intersections, the one with the smaller `y`.
/// The formulas follow the exec code step for step.
pub open spec fn circle_intersection_spec(p1: Vec3Fx, r1: int, p2: Vec3Fx, r2: int, d: int) -> Vec3Fx
    recommends
        d >= 1,
{
    let a = sat64(tdiv(sat64(sat64(sat64(tdiv(r1 * r1, SCALE as int)) - sat64(tdiv(r2 * r2, SCALE as int))) + sat64(tdiv(d * d, SCALE as int))) * SCALE, sat64(2 * d)));
    let h2 = sat64(sat64(tdiv(r1 * r1, SCALE as int)) - sat64(tdiv(a * a, SCALE as int)));
    let h = if h2 >= 0 {
        sqrt_fx_spec(h2)
    } else {
        0int
    };
    let dx = sat64(p2.x - p1.x);
    let dy = sat64(p2.y - p1.y);
    let x0 = sat64(p1.x + sat64(tdiv(a * dx, d)));
    let y0 = sat64(p1.y + sat64(tdiv(a * dy, d)));
    let x3 = sat64(x0 + sat64(tdiv(h * dy, d)));
    let y3 = sat64(y0 - sat64(tdiv(h * dx, d)));
    let x4 = sat64(x0 - sat64(tdiv(h * dy, d)));
    let y4 = sat64(y0 + sat64(tdiv(h * dx, d)));
    if y3 < y4 {
        Vec3Fx { x: x3 as i64, y: y3 as i64, z: p1.z }
    } else {
        Vec3Fx { x: x4 as i64, y: y4 as i64, z: p1.z }
    }
}

/// A point at distance `r1` from `p1` and `r2` from the point at distance
/// `d` from `p1` toward `p2`, in the `z = p1.z` plane.  Fails when the two
/// circles cannot meet (the triangle inequality is violated) and when the
/// centers coincide (`d` below one fixed-point step), the explicit fallback
/// for an undefined direction.
pub fn calc_circle_intersection(p1: &Vec3Fx, r1: i64, p2: &Vec3Fx, r2: i64, d: i64) -> (r: Result<
    Vec3Fx,
    FFIError,
>)
    requires
        r1 >= 0,
        r2 >= 0,
    ensures
        match r {
            Ok(p) => d >= 1 && d <= sat64(r1 + r2) && d >= sat64(r1 - r2) && d >= sat64(r2 - r1)
                && p == circle_intersection_spec(*p1, r1 as int, *p2, r2 as int, d as int),
            Err(e) => {
                ||| (d > sat64(r1 + r2) || d < sat64(r1 - r2) || d < sat64(r2 - r1)) && e
                    == FFIError::GraphBuildFailed
                ||| d < 1 && e == FFIError::DivisionByZero
            },
        },
{
    let sum = sat_add(r1, r2);
    let diff1 = sat_sub(r1, r2);
    let diff2 = sat_sub(r2, r1);
    if d > sum || d < diff1 || d < diff2 {
        return Err(FFIError::GraphBuildFailed);
    }
    if d < 1 {
        return Err(FFIError::DivisionByZero);
    }

    let r1sq = fx_mul(r1, r1);
    let r2sq = fx_mul(r2, r2);
    let dsq = fx_mul(d, d);
    let num = sat_add(sat_sub(r1sq, r2sq), dsq);
    let a = fx_div(num, sat_add(d, d));
    proof {
        assert(sat64(2 * d) == sat64(d + d));
    }
    let h2 = sat_sub(r1sq, fx_mul(a, a));
    let h = if h2 >= 0 {
        sqrt_fx(h2)
    } else {
        0
    };
    let dx = sat_sub(p2.x, p1.x);
    let dy = sat_sub(p2.y, p1.y);
    let x0 = sat_add(p1.x, mul_div(a, dx, d));
    let y0 = sat_add(p1.y, mul_div(a, dy, d));
    let hdy = mul_div(h, dy, d);
    let hdx = mul_div(h, dx, d);
    let x3 = sat_add(x0, hdy);
    let y3 = sat_sub(y0, hdx);
    let x4 = sat_sub(x0, hdy);
    let y4 = sat_add(y0, hdx);
    if y3 < y4 {
        Ok(Vec3Fx { x: x3, y: y3, z: p1.z })
    } else {
        Ok(Vec3Fx { x: x4, y: y4, z: p1.z })
    }
}

} // verus!
