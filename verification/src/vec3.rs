//! Three-component fixed-point vectors and their exact kinematic operations.
//!
//! Components are `i64` fixed-point scalars (see [`crate::fixed`]).  The
//! magnitude of a vector is the floor of the real Euclidean norm of its
//! components, computed with a verified integer square root.

use vstd::prelude::*;
use crate::fixed::{sat64, tdiv, sat_add, sat_neg, fx_mul, SCALE};

verus! {

#[derive(Clone, Copy, Debug, PartialEq, Eq, Structural)]
pub struct Vec3Fx {
    pub x: i64,
    pub y: i64,
    pub z: i64,
}

/// The floor of the square root of a non-negative integer.
pub open spec fn isqrt_spec(n: int) -> int
    recommends
        n >= 0,
{
    choose|r: int| 0 <= r && #[trigger] (r * r) <= n < (r + 1) * (r + 1)
}

/// Every non-negative integer has an integer square root.
pub proof fn lemma_isqrt_exists(n: nat)
    ensures
        exists|r: int| 0 <= r && #[trigger] (r * r) <= n < (r + 1) * (r + 1),
    decreases n,
{
    if n == 0 {
        let w: int = 0;
        assert(0 <= w && #[trigger] (w * w) <= n < (w + 1) * (w + 1)) by (nonlinear_arith)
            requires
                n == 0,
                w == 0,
        ;
    } else {
        lemma_isqrt_exists((n - 1) as nat);
        let r = choose|r: int| 0 <= r && #[trigger] (r * r) <= n - 1 < (r + 1) * (r + 1);
        if (r + 1) * (r + 1) <= n {
            assert(n - 1 < (r + 1) * (r + 1));
            assert((r + 1) * (r + 1) <= n < (r + 2) * (r + 2)) by (nonlinear_arith)
                requires
                    r >= 0,
                    (r + 1) * (r + 1) <= n,
                    n - 1 < (r + 1) * (r + 1),
            ;
            assert(0 <= r + 1 && (r + 1) * (r + 1) <= n < (r + 2) * (r + 2));
        } else {
            assert(0 <= r && r * r <= n < (r + 1) * (r + 1));
        }
    }
}

/// The integer square root is unique, so any witness equals `isqrt_spec`.
pub proof fn lemma_isqrt_unique(n: int, r: int)
    requires
        0 <= r,
        r * r <= n,
        n < (r + 1) * (r + 1),
    ensures
        r == isqrt_spec(n),
{
    let s = isqrt_spec(n);
    lemma_isqrt_exists(n as nat);
    assert(0 <= s && s * s <= n < (s + 1) * (s + 1));
    assert(r == s) by (nonlinear_arith)
        requires
            0 <= r,
            0 <= s,
            r * r <= n < (r + 1) * (r + 1),
            s * s <= n < (s + 1) * (s + 1),
    ;
}

/// The square root of a perfect square is exact.
pub proof fn lemma_isqrt_exact_square(t: int)
    requires
        t >= 0,
    ensures
        isqrt_spec(t * t) == t,
{
    assert(t * t <= t * t < (t + 1) * (t + 1)) by (nonlinear_arith)
        requires
            t >= 0,
    ;
    lemma_isqrt_unique(t * t, t);
}

/// Floor square root of a `u128`, by binary search on the answer.
pub fn isqrt(n: u128) -> (r: u64)
    ensures
        r as int == isqrt_spec(n as int),
        (r as int) * (r as int) <= n as int,
        (n as int) < (r as int + 1) * (r as int + 1),
{
    let mut lo: u128 = 0;
    let mut hi: u128 = 0xffff_ffff_ffff_ffff;
    proof {
        assert((hi as int + 1) * (hi as int + 1) > u128::MAX as int) by (nonlinear_arith)
            requires
                hi == 0xffff_ffff_ffff_ffffu128,
        ;
    }
    while lo < hi
        invariant
            lo <= hi <= 0xffff_ffff_ffff_ffff,
            (lo as int) * (lo as int) <= n as int,
            (n as int) < (hi as int + 1) * (hi as int + 1),
        decreases hi - lo,
    {
        let mid = lo + (hi - lo + 1) / 2;
        proof {
            assert(lo < mid <= hi);
            assert((mid as int) * (mid as int) < u128::MAX as int) by (nonlinear_arith)
                requires
                    0 < mid <= 0xffff_ffff_ffff_ffffu128,
            ;
        }
        if mid * mid <= n {
            lo = mid;
        } else {
            hi = mid - 1;
        }
    }
    proof {
        lemma_isqrt_unique(n as int, lo as int);
    }
    lo as u64
}

/// The squared Euclidean norm, as a mathematical integer.
pub open spec fn norm2(v: Vec3Fx) -> int {
    v.x * v.x + v.y * v.y + v.z * v.z
}

/// The fixed-point magnitude: floor of the Euclidean norm of the
/// components, saturated into `i64`.
pub open spec fn norm_spec(v: Vec3Fx) -> int {
    sat64(isqrt_spec(norm2(v)))
}

/// Componentwise saturating sum.
pub open spec fn vadd_spec(a: Vec3Fx, b: Vec3Fx) -> Vec3Fx {
    Vec3Fx { x: sat64(a.x + b.x) as i64, y: sat64(a.y + b.y) as i64, z: sat64(a.z + b.z) as i64 }
}

/// Componentwise saturating negation.
pub open spec fn vneg_spec(a: Vec3Fx) -> Vec3Fx {
    Vec3Fx {
        x: sat64(-(a.x as int)) as i64,
        y: sat64(-(a.y as int)) as i64,
        z: sat64(-(a.z as int)) as i64,
    }
}

/// Componentwise fixed-point scaling by `s`.
pub open spec fn vscale_spec(a: Vec3Fx, s: int) -> Vec3Fx {
    Vec3Fx {
        x: sat64(tdiv(a.x * s, SCALE as int)) as i64,
        y: sat64(tdiv(a.y * s, SCALE as int)) as i64,
        z: sat64(tdiv(a.z * s, SCALE as int)) as i64,
    }
}

/// Componentwise truncating division by a positive integer `m` (no rescale).
pub open spec fn vdiv_spec(a: Vec3Fx, m: int) -> Vec3Fx {
    Vec3Fx {
        x: tdiv(a.x as int, m) as i64,
        y: tdiv(a.y as int, m) as i64,
        z: tdiv(a.z as int, m) as i64,
    }
}

/// The vector rescaled so that its real-valued magnitude is `m`: each
/// component becomes `c * m / norm`, rounded toward zero.  The zero vector
/// has no direction, so it is the fixed result for a zero norm.
pub open spec fn set_magnitude_spec(v: Vec3Fx, m: int) -> Vec3Fx {
    let d = norm_spec(v);
    if d == 0 {
        Vec3Fx { x: 0, y: 0, z: 0 }
    } else {
        Vec3Fx {
            x: sat64(tdiv(v.x * m, d)) as i64,
            y: sat64(tdiv(v.y * m, d)) as i64,
            z: sat64(tdiv(v.z * m, d)) as i64,
        }
    }
}

impl Vec3Fx {
    pub fn new(x: i64, y: i64, z: i64) -> (r: Vec3Fx)
        ensures
            r == (Vec3Fx { x, y, z }),
    {
        Vec3Fx { x, y, z }
    }

    pub fn zero() -> (r: Vec3Fx)
        ensures
            r == (Vec3Fx { x: 0i64, y: 0i64, z: 0i64 }),
    {
        Vec3Fx { x: 0, y: 0, z: 0 }
    }

    pub fn add(self, other: Vec3Fx) -> (r: Vec3Fx)
        ensures
            r == vadd_spec(self, other),
    {
        Vec3Fx {
            x: sat_add(self.x, other.x),
            y: sat_add(self.y, other.y),
            z: sat_add(self.z, other.z),
        }
    }

    pub fn sub(self, other: Vec3Fx) -> (r: Vec3Fx)
        ensures
            r == vadd_spec(self, vneg_spec(other)),
    {
        self.add(other.neg())
    }

    pub fn neg(self) -> (r: Vec3Fx)
        ensures
            r == vneg_spec(self),
    {
        Vec3Fx { x: sat_neg(self.x), y: sat_neg(self.y), z: sat_neg(self.z) }
    }

    /// Fixed-point scaling of every component by `s`.
    pub fn scale(self, s: i64) -> (r: Vec3Fx)
        ensures
            r == vscale_spec(self, s as int),
    {
        Vec3Fx { x: fx_mul(self.x, s), y: fx_mul(self.y, s), z: fx_mul(self.z, s) }
    }

    /// The squared norm of the components, exactly.
    pub fn norm2_exec(self) -> (r: u128)
        ensures
            r as int == norm2(self),
    {
        let ux = abs_u64(self.x);
        let uy = abs_u64(self.y);
        let uz = abs_u64(self.z);
        proof {
            assert((ux as int) * (ux as int) == self.x * self.x) by (nonlinear_arith)
                requires
                    ux as int == if self.x >= 0 { self.x as int } else { -(self.x as int) },
            ;
            assert((uy as int) * (uy as int) == self.y * self.y) by (nonlinear_arith)
                requires
                    uy as int == if self.y >= 0 { self.y as int } else { -(self.y as int) },
            ;
            assert((uz as int) * (uz as int) == self.z * self.z) by (nonlinear_arith)
                requires
                    uz as int == if self.z >= 0 { self.z as int } else { -(self.z as int) },
            ;
            assert((ux as int) * (ux as int) <= 0x4000_0000_0000_0000_0000_0000_0000_0000int)
                by (nonlinear_arith)
                requires
                    ux <= 0x8000_0000_0000_0000u64,
            ;
            assert((uy as int) * (uy as int) <= 0x4000_0000_0000_0000_0000_0000_0000_0000int)
                by (nonlinear_arith)
                requires
                    uy <= 0x8000_0000_0000_0000u64,
            ;
            assert((uz as int) * (uz as int) <= 0x4000_0000_0000_0000_0000_0000_0000_0000int)
                by (nonlinear_arith)
                requires
                    uz <= 0x8000_0000_0000_0000u64,
            ;
        }
        (ux as u128) * (ux as u128) + (uy as u128) * (uy as u128) + (uz as u128) * (uz as u128)
    }

    /// The magnitude of the vector, saturated into `i64`.
    pub fn norm(self) -> (r: i64)
        ensures
            r as int == norm_spec(self),
            r >= 0,
    {
        let n2 = self.norm2_exec();
        let root = isqrt(n2);
        if root > i64::MAX as u64 {
            i64::MAX
        } else {
            root as i64
        }
    }

    /// Rescale to real magnitude `m`, keeping the direction; the zero
    /// vector stays zero.
    pub fn set_magnitude(self, m: i64) -> (r: Vec3Fx)
        ensures
            r == set_magnitude_spec(self, m as int),
    {
        let d = self.norm();
        if d == 0 {
            Vec3Fx { x: 0, y: 0, z: 0 }
        } else {
            Vec3Fx {
                x: mul_div(self.x, m, d),
                y: mul_div(self.y, m, d),
                z: mul_div(self.z, m, d),
            }
        }
    }

    /// The magnitude of the difference of two vectors: the rendered
    /// distance between two positions.
    pub fn distance(self, other: Vec3Fx) -> (r: i64)
        ensures
            r as int == norm_spec(vadd_spec(self, vneg_spec(other))),
            r >= 0,
    {
        self.sub(other).norm()
    }
}

/// The absolute value of an `i64`, exactly (no saturation).
pub fn abs_u64(a: i64) -> (r: u64)
    ensures
        r as int == if a >= 0 { a as int } else { -(a as int) },
{
    if a >= 0 {
        a as u64
    } else if a == i64::MIN {
        0x8000_0000_0000_0000u64
    } else {
        (-a) as u64
    }
}

/// `a * b / d` rounded toward zero, saturated into `i64`, for positive `d`.
pub fn mul_div(a: i64, b: i64, d: i64) -> (r: i64)
    requires
        d > 0,
    ensures
        r as int == sat64(tdiv(a as int * b as int, d as int)),
{
    proof {
        crate::fixed::lemma_mul_i64_fits(a as int, b as int);
    }
    let p: i128 = (a as i128) * (b as i128);
    crate::fixed::tdiv_narrow(p, d)
}

} // verus!
