use r_core::fx::{div_floor, isqrt, ONE, PI, HALF_PI, TWO_PI};
use r_core::trig::{sin_fx, cos_fx, atan2_fx};
use r_core::vec2::Vec2;

#[test]
fn isqrt_exact_values() {
    assert_eq!(isqrt(0), 0);
    assert_eq!(isqrt(1), 1);
    assert_eq!(isqrt(99), 9);
    assert_eq!(isqrt(100), 10);
    assert_eq!(isqrt(26_214_400), 5120);
}

#[test]
fn div_floor_rounds_toward_negative() {
    assert_eq!(div_floor(7, 2), 3);
    assert_eq!(div_floor(-7, 2), -4);
    assert_eq!(div_floor(-512000, 1024), -500);
    assert_eq!(div_floor(0, 5), 0);
}

#[test]
fn sine_cosine_cardinal_points() {
    assert_eq!(sin_fx(0), 0);
    assert_eq!(cos_fx(0), ONE);
    assert_eq!(sin_fx(HALF_PI), ONE);
    assert_eq!(sin_fx(PI), 0);
    assert_eq!(cos_fx(PI), -ONE);
    assert_eq!(sin_fx(PI + HALF_PI), -ONE);
    assert_eq!(sin_fx(TWO_PI), 0);
    assert_eq!(cos_fx(TWO_PI), ONE);
    assert_eq!(sin_fx(-HALF_PI), -ONE);
}

#[test]
fn sine_stays_within_unit_range() {
    let mut a: i64 = -3 * TWO_PI;
    while a <= 3 * TWO_PI {
        assert!(-ONE <= sin_fx(a) && sin_fx(a) <= ONE);
        assert!(-ONE <= cos_fx(a) && cos_fx(a) <= ONE);
        a += 97;
    }
}

#[test]
fn polar_angle_quadrants() {
    assert_eq!(atan2_fx(0, 1000), 0);
    assert_eq!(atan2_fx(1000, 0), HALF_PI);
    assert_eq!(atan2_fx(0, -500), PI);
    assert_eq!(atan2_fx(-1000, 0), -HALF_PI);
    assert_eq!(atan2_fx(1024, 1024), PI / 4);
    assert_eq!(atan2_fx(-1, -1000), -3215);
    assert_eq!(atan2_fx(0, 0), 0);
}

#[test]
fn vector_arithmetic() {
    let a = Vec2::new(1000, 2000);
    let b = Vec2::new(-300, 50);
    assert_eq!(a.add(b), Vec2::new(700, 2050));
    assert_eq!(a.sub(b), Vec2::new(1300, 1950));
    assert_eq!(a.scale(3), Vec2::new(3000, 6000));
    assert_eq!(a.dot(b), 1000 * -300 + 2000 * 50);
    assert_eq!(a.sum(), 3000);
    assert_eq!(Vec2::new(999, -999).mul_fx(512), Vec2::new(499, -500));
}

#[test]
fn vector_length_and_normalize() {
    let v = Vec2::new(3072, 4096);
    assert_eq!(v.sq_magnitude(), 26_214_400);
    assert_eq!(v.magnitude(), 5120);
    let mut n = v;
    n.normalize();
    assert_eq!(n, Vec2::new(614, 819));
}

#[test]
fn vector_rotation() {
    let mut v = Vec2::new(1000, 2000);
    v.rotate(Vec2::new(ONE, 0));
    assert_eq!(v, Vec2::new(1000, 2000));
    v.rotate(Vec2::new(0, ONE));
    assert_eq!(v, Vec2::new(-2000, 1000));
}

#[test]
fn direction_from_angle() {
    assert_eq!(Vec2::from_angle(0), Vec2::new(ONE, 0));
    assert_eq!(Vec2::from_angle(HALF_PI), Vec2::new(0, ONE));
    assert_eq!(Vec2::from_angle(PI), Vec2::new(-ONE, 0));
    let v = Vec2::from_angle(-3 * TWO_PI);
    assert_eq!(v, Vec2::new(ONE, 0));
}

#[test]
fn vector_polar_angle() {
    assert_eq!(Vec2::new(5000, 0).angle(), 0);
    assert_eq!(Vec2::new(0, 5000).angle(), HALF_PI);
}
