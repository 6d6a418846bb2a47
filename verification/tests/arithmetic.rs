//! Exact-value tests for the fixed-point scalar and vector operations.

use raytracer::fixed::{
    div_floor, div_fx, div_fx_signed, isqrt, largest_of, mul_fx, rem_trunc, sqrt_fx, SCALE,
};
use raytracer::render::{avg_color, to_rgb8};
use raytracer::vec3::{mix, Vec3};

#[test]
fn isqrt_exact_values() {
    assert_eq!(isqrt(0), 0);
    assert_eq!(isqrt(1), 1);
    assert_eq!(isqrt(15), 3);
    assert_eq!(isqrt(16), 4);
    assert_eq!(isqrt(u128::MAX), (1u128 << 64) - 1);
}

#[test]
fn sqrt_fx_exact_squares() {
    assert_eq!(sqrt_fx(SCALE), SCALE);
    assert_eq!(sqrt_fx(4 * SCALE), 2 * SCALE);
    assert_eq!(sqrt_fx(25 * SCALE), 5 * SCALE);
    assert_eq!(sqrt_fx(0), 0);
}

#[test]
fn div_floor_rounds_toward_negative_infinity() {
    assert_eq!(div_floor(7, 2), 3);
    assert_eq!(div_floor(-7, 2), -4);
    assert_eq!(div_floor(-8, 2), -4);
    assert_eq!(div_floor(0, 5), 0);
}

#[test]
fn rem_trunc_keeps_dividend_sign() {
    assert_eq!(rem_trunc(5, 3), 2);
    assert_eq!(rem_trunc(-5, 3), -2);
    assert_eq!(rem_trunc(6, 3), 0);
}

#[test]
fn fixed_mul_div() {
    assert_eq!(mul_fx(3 * SCALE, 2 * SCALE), 6 * SCALE);
    assert_eq!(mul_fx(-3 * SCALE, 2 * SCALE), -6 * SCALE);
    assert_eq!(div_fx(SCALE, 2 * SCALE), SCALE / 2);
    assert_eq!(div_fx_signed(-2000 * SCALE, -400 * SCALE), 5 * SCALE);
}

#[test]
fn largest_of_clamps_negatives() {
    assert_eq!(largest_of(-5), 0);
    assert_eq!(largest_of(7), 7);
}

#[test]
fn mix_weight_zero_keeps_first_color() {
    let a = Vec3::new(100, -200, 300);
    let b = Vec3::new(-7, 8, 9);
    assert_eq!(mix(&a, &b, 0), a);
}

#[test]
fn mix_weight_one_takes_second_color() {
    let a = Vec3::new(100, -200, 300);
    let b = Vec3::new(-7, 8, 9);
    assert_eq!(mix(&a, &b, SCALE), b);
}

#[test]
fn mix_midpoint() {
    let a = Vec3::new(SCALE, 0, 0);
    let b = Vec3::new(0, SCALE, 0);
    assert_eq!(mix(&a, &b, SCALE / 2), Vec3::new(SCALE / 2, SCALE / 2, 0));
}

#[test]
fn vector_ops_exact() {
    let a = Vec3::new(SCALE, 2 * SCALE, 3 * SCALE);
    let b = Vec3::new(4 * SCALE, 5 * SCALE, 6 * SCALE);
    assert_eq!(a.add(&b), Vec3::new(5 * SCALE, 7 * SCALE, 9 * SCALE));
    assert_eq!(b.sub(&a), Vec3::new(3 * SCALE, 3 * SCALE, 3 * SCALE));
    assert_eq!(a.neg(), Vec3::new(-SCALE, -2 * SCALE, -3 * SCALE));
    assert_eq!(a.dot(&b), 32 * SCALE);
    let x = Vec3::new(SCALE, 0, 0);
    let y = Vec3::new(0, SCALE, 0);
    assert_eq!(x.cross(&y), Vec3::new(0, 0, SCALE));
}

#[test]
fn normalize_three_four_five() {
    let v = Vec3::new(3 * SCALE, 4 * SCALE, 0);
    let n = v.normalize();
    assert_eq!(n, Vec3::new(3 * SCALE * SCALE / (5 * SCALE), 4 * SCALE * SCALE / (5 * SCALE), 0));
}

#[test]
fn average_of_constant_block_is_exact() {
    let c = Vec3::new(12345, -678, 90123);
    assert_eq!(avg_color(&c, &c, &c, &c), c);
}

#[test]
fn average_of_mixed_block() {
    let a = Vec3::new(4, 0, 0);
    let b = Vec3::new(0, 4, 0);
    let c = Vec3::new(0, 0, 4);
    let d = Vec3::new(4, 4, 4);
    assert_eq!(avg_color(&a, &b, &c, &d), Vec3::new(2, 2, 2));
}

#[test]
fn rgb8_quantization_saturates() {
    let c = Vec3::new(SCALE, SCALE / 2, -5);
    assert_eq!(to_rgb8(&c), (255, 127, 0));
    let over = Vec3::new(3 * SCALE, SCALE / 4, 0);
    assert_eq!(to_rgb8(&over), (255, 63, 0));
}
