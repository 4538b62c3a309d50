//! Fixed-point scalars, vectors and colors: exact expected values.

use craycray::color::Color;
use craycray::fixed::{fx_clamp01, fx_div, fx_mul, fx_pow, isqrt_u128, SCALE};
use craycray::vec3d::Vec3d;

const S: i64 = 65536;

#[test]
fn scale_is_two_to_sixteen() {
    assert_eq!(SCALE, S);
}

#[test]
fn fx_mul_exact() {
    // 1.5 * 0.5 == 0.75
    assert_eq!(fx_mul(3 * S / 2, S / 2), 3 * S / 4);
    // rounding is toward zero on either sign
    assert_eq!(fx_mul(-3, 2), 0);
    assert_eq!(fx_mul(3, 2), 0);
    assert_eq!(fx_mul(-S, S / 2), -(S / 2));
}

#[test]
fn fx_div_truncates_toward_zero() {
    assert_eq!(fx_div(-5 * S, 2 * S), -163840); // -2.5 exactly
    assert_eq!(fx_div(S, 3), 1431655765);
    assert_eq!(fx_div(7 * S, 2 * S), 229376); // 3.5 exactly
    assert_eq!(fx_div(7 * S, -2 * S), -229376);
    assert_eq!(fx_div(-7 * S, -2 * S), 229376);
}

#[test]
fn fx_pow_exact() {
    assert_eq!(fx_pow(S / 2, 0), S);
    assert_eq!(fx_pow(S / 2, 2), S / 4);
    assert_eq!(fx_pow(S, 15), S);
    assert_eq!(fx_pow(0, 3), 0);
    // the zeroth power is one, whatever the base
    assert_eq!(fx_pow(0, 0), S);
}

#[test]
fn isqrt_exact() {
    assert_eq!(isqrt_u128(0), 0);
    assert_eq!(isqrt_u128(144), 12);
    assert_eq!(isqrt_u128(143), 11);
    assert_eq!(isqrt_u128((1u128 << 90) - 1), (1 << 45) - 1);
}

#[test]
fn clamp01_both_ends() {
    assert_eq!(fx_clamp01(-5), 0);
    assert_eq!(fx_clamp01(S + 1), S);
    assert_eq!(fx_clamp01(1234), 1234);
}

#[test]
fn vec_add_sub_dot_cross() {
    let a = Vec3d::new(S, 2 * S, 3 * S);
    let b = Vec3d::new(4 * S, 5 * S, 6 * S);
    assert_eq!(a.add(&b), Vec3d::new(5 * S, 7 * S, 9 * S));
    assert_eq!(b.sub(&a), Vec3d::new(3 * S, 3 * S, 3 * S));
    // 1*4 + 2*5 + 3*6 = 32
    assert_eq!(a.dot(&b), 32 * S);
    let x = Vec3d::new(S, 0, 0);
    let y = Vec3d::new(0, S, 0);
    assert_eq!(x.cross(&y), Vec3d::new(0, 0, S));
}

#[test]
fn vec_magnitude_and_normalize() {
    let v = Vec3d::new(3 * S, 4 * S, 0);
    assert_eq!(v.magnitude(), 5 * S);
    assert_eq!(v.normalize(), Vec3d::new(39321, 52428, 0));
    // the zero vector stays zero
    assert_eq!(Vec3d::new(0, 0, 0).normalize(), Vec3d::new(0, 0, 0));
    // an axis vector normalizes exactly
    assert_eq!(Vec3d::new(0, 0, 7 * S).normalize(), Vec3d::new(0, 0, S));
}

#[test]
fn vec_rotations() {
    let x = Vec3d::new(S, 0, 0);
    // rotate about Z by 90 degrees: sin = 1, cos = 0
    assert_eq!(x.rot_z(S, 0), Vec3d::new(0, S, 0));
    // rotate about Y by 90 degrees maps +Z onto +X
    let z = Vec3d::new(0, 0, S);
    assert_eq!(z.rot_y(S, 0), Vec3d::new(S, 0, 0));
    // rotate about X by 90 degrees maps +Y onto +Z
    let y = Vec3d::new(0, S, 0);
    assert_eq!(y.rot_x(S, 0), Vec3d::new(0, 0, S));
    // rotating by a zero angle changes nothing
    let v = Vec3d::new(123, -456, 789);
    assert_eq!(v.rot_x(0, S), v);
    assert_eq!(v.rot_y(0, S), v);
    assert_eq!(v.rot_z(0, S), v);
}

#[test]
fn color_arithmetic() {
    let a = Color::new(S / 2, S / 4, 0);
    let b = Color::new(S / 2, S / 2, S);
    assert_eq!(a.add(&b), Color::new(S, 3 * S / 4, S));
    assert_eq!(a.mul(&b), Color::new(S / 4, S / 8, 0));
    assert_eq!(a.scale(2 * S), Color::new(S, S / 2, 0));
    assert_eq!(Color::black(), Color::new(0, 0, 0));
    assert_eq!(Color::white(), Color::new(S, S, S));
}

#[test]
fn color_intensity_is_mean() {
    assert_eq!(Color::new(S, S / 2, 0).intensity(), S / 2);
    // a negative mean also rounds toward zero
    assert_eq!(Color::new(-S, 0, 0).intensity(), -(S / 3));
}

#[test]
fn color_to_u8_round_trip() {
    assert_eq!(Color::new(S, S, S).to_u8_triple(), (255, 255, 255));
    assert_eq!(Color::new(0, 0, 0).to_u8_triple(), (0, 0, 0));
    // 1.5 clamps to full, 0.5 truncates to 127, negative clamps to zero
    assert_eq!(Color::new(3 * S / 2, S / 2, -S / 10).to_u8_triple(), (255, 127, 0));
}

#[test]
fn color_addition_does_not_saturate() {
    // sums pass one unit unclamped; only the 8-bit export clamps
    let c = Color::new(3 * S / 4, 3 * S / 4, 3 * S / 4);
    let sum = c.add(&c);
    assert_eq!(sum, Color::new(3 * S / 2, 3 * S / 2, 3 * S / 2));
    assert_eq!(sum.to_u8_triple(), (255, 255, 255));
}
