//! Exact values of the fixed-point kernel and the vector operations.

use spring_embed::fixed::{fx_div, fx_mul, div_by, sat_add, sat_neg, sat_sub, SCALE};
use spring_embed::vec3::{isqrt, Vec3Fx};

fn fx(x: f64) -> i64 {
    (x * SCALE as f64).round() as i64
}

fn to_f(x: i64) -> f64 {
    x as f64 / SCALE as f64
}

#[test]
fn saturating_scalars() {
    assert_eq!(sat_add(1, 2), 3);
    assert_eq!(sat_add(i64::MAX, 1), i64::MAX);
    assert_eq!(sat_add(i64::MIN, -1), i64::MIN);
    assert_eq!(sat_sub(i64::MIN, 1), i64::MIN);
    assert_eq!(sat_neg(i64::MIN), i64::MAX);
    assert_eq!(sat_neg(7), -7);
}

#[test]
fn fixed_products_and_quotients() {
    // 1.5 * 2.0 == 3.0 exactly in fixed point.
    assert_eq!(fx_mul(fx(1.5), fx(2.0)), fx(3.0));
    // 3.0 / 2.0 == 1.5 exactly.
    assert_eq!(fx_div(fx(3.0), fx(2.0)), fx(1.5));
    // Rounding is toward zero on both signs.
    assert_eq!(div_by(7, 2), 3);
    assert_eq!(div_by(-7, 2), -3);
}

#[test]
fn integer_square_roots() {
    assert_eq!(isqrt(0), 0);
    assert_eq!(isqrt(1), 1);
    assert_eq!(isqrt(3), 1);
    assert_eq!(isqrt(4), 2);
    assert_eq!(isqrt(99), 9);
    assert_eq!(isqrt(u128::MAX), u64::MAX);
}

#[test]
fn vector_norms() {
    let v = Vec3Fx::new(fx(3.0), fx(4.0), 0);
    assert_eq!(v.norm(), fx(5.0));
    let zero = Vec3Fx::zero();
    assert_eq!(zero.norm(), 0);
    // Rescaling the zero vector keeps it zero: the fixed fallback.
    assert_eq!(zero.set_magnitude(fx(7.0)), Vec3Fx::zero());
    // Rescaling keeps the direction and hits the target length closely.
    let r = v.set_magnitude(fx(10.0));
    let got = (to_f(r.x).powi(2) + to_f(r.y).powi(2) + to_f(r.z).powi(2)).sqrt();
    assert!((got - 10.0).abs() < 1e-4);
    assert!((to_f(r.x) - 6.0).abs() < 1e-4);
    assert!((to_f(r.y) - 8.0).abs() < 1e-4);
}
