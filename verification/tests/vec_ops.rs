//! Vector algebra, exercised through the fixed-point representation:
//! values convert at `SCALE` units per 1.0, and comparisons allow the
//! representation's rounding.

use raytracer::fx::SCALE;
use raytracer::vec3::Vec3;

const MARGIN_OF_ERROR: f64 = 0.00001;

fn fx(v: f64) -> i64 {
    (v * (SCALE as f64)).round() as i64
}

fn fl(v: i64) -> f64 {
    (v as f64) / (SCALE as f64)
}

fn vec(x: f64, y: f64, z: f64) -> Vec3 {
    Vec3::new(fx(x), fx(y), fx(z))
}

fn assert_close(actual: f64, expected: f64, margin: f64) {
    assert!(
        (actual - expected).abs() <= margin,
        "{actual} is not within {margin} of {expected}"
    );
}

fn assert_approx_equal(a: Vec3, b: Vec3, margin: f64) {
    assert_close(fl(a.x), fl(b.x), margin);
    assert_close(fl(a.y), fl(b.y), margin);
    assert_close(fl(a.z), fl(b.z), margin);
}

#[test]
fn test_eq() {
    let vec_one = vec(1.0, -3.0, 5.3);
    let vec_two = vec(1.0, -3.0, 5.3);
    assert_approx_equal(vec_one, vec_two, MARGIN_OF_ERROR);
}

#[test]
fn vec3_test_add() {
    let vec_one = vec(1.0, -3.0, 5.3);
    let vec_two = vec(4.9, -0.1, -6.7);
    let expected_result = vec(5.9, -3.1, -1.4);
    assert_approx_equal(vec_one.add(&vec_two), expected_result, MARGIN_OF_ERROR);
}

#[test]
fn vec3_test_sub() {
    let vec_one = vec(1.0, -3.0, 5.3);
    let vec_two = vec(4.9, -0.1, -6.7);
    let expected_result = vec(-3.9, -2.9, 12.0);
    assert_approx_equal(vec_one.sub(&vec_two), expected_result, MARGIN_OF_ERROR);
}

#[test]
fn vec3_test_mul() {
    let vec_in = vec(0.6, 7.9, -3.2);
    let multiplier = fx(9.8);
    let expected_result = vec(5.88, 77.42, -31.36);
    assert_approx_equal(vec_in.mult(multiplier), expected_result, MARGIN_OF_ERROR);
}

#[test]
fn vec3_test_div() {
    let vec_in = vec(0.6, 7.9, -3.2);
    let dividend = fx(-0.25);
    let expected_result = vec(-2.4, -31.6, 12.8);
    assert_approx_equal(vec_in.div(dividend), expected_result, MARGIN_OF_ERROR);
}

#[test]
fn test_new() {
    let a = vec(1.0, 2.0, 3.0);
    assert_close(fl(a.x), 1.0, MARGIN_OF_ERROR);
    assert_close(fl(a.y), 2.0, MARGIN_OF_ERROR);
    assert_close(fl(a.z), 3.0, MARGIN_OF_ERROR);
}

#[test]
fn test_dot() {
    let a = vec(0.5, 2.0, 3.0);
    let b = vec(-2.0, 5.0, 1.0);
    assert_close(fl(a.dot(&b)), 12.0, MARGIN_OF_ERROR);
}

#[test]
fn test_len() {
    let a = vec(1.0, 2.0, -3.0);
    assert_close(fl(a.len()), (14.0f64).sqrt(), MARGIN_OF_ERROR);
}

#[test]
fn test_unit() {
    let a = vec(5.0, 12.0, -8.0);
    assert!((fl(a.len()) - 1.0).abs() > MARGIN_OF_ERROR);

    let a_unit = a.unit();
    assert_close(fl(a_unit.len()), 1.0, MARGIN_OF_ERROR);
    let root = (233.0f64).sqrt();
    assert_close(fl(a_unit.x), 5.0 / root, MARGIN_OF_ERROR);
    assert_close(fl(a_unit.y), 12.0 / root, MARGIN_OF_ERROR);
    assert_close(fl(a_unit.z), -8.0 / root, MARGIN_OF_ERROR);
}

#[test]
fn test_bounce_with_normal() {
    let a = vec(3.0, 1.0, -5.4);

    // normal facing in the -x should only affect x component.
    let normal = vec(-1.0, 0.0, 0.0).unit();
    assert_close(fl(normal.len()), 1.0, MARGIN_OF_ERROR);

    let bounced = a.bounce_with_normal(&normal);
    assert_close(fl(a.len()), fl(bounced.len()), MARGIN_OF_ERROR);
    assert_close(fl(bounced.x), -3.0, MARGIN_OF_ERROR);
    assert_close(fl(bounced.y), 1.0, MARGIN_OF_ERROR);
    assert_close(fl(bounced.z), -5.4, MARGIN_OF_ERROR);

    // normal facing in the x should also only affect x component.
    let normal = vec(1.0, 0.0, 0.0).unit();
    assert_close(fl(normal.len()), 1.0, MARGIN_OF_ERROR);

    let bounced = a.bounce_with_normal(&normal);
    assert_close(fl(a.len()), fl(bounced.len()), MARGIN_OF_ERROR);
    assert_close(fl(bounced.x), -3.0, MARGIN_OF_ERROR);
    assert_close(fl(bounced.y), 1.0, MARGIN_OF_ERROR);
    assert_close(fl(bounced.z), -5.4, MARGIN_OF_ERROR);

    let a = vec(0.0, 1.0, -5.4);

    // bounce should properly handle a parallel vector
    let normal = vec(1.0, 0.0, 0.0).unit();
    let bounced = a.bounce_with_normal(&normal);
    assert_close(fl(a.len()), fl(bounced.len()), MARGIN_OF_ERROR);
    assert_close(fl(bounced.x), 0.0, MARGIN_OF_ERROR);
    assert_close(fl(bounced.y), 1.0, MARGIN_OF_ERROR);
    assert_close(fl(bounced.z), -5.4, MARGIN_OF_ERROR);

    // bounce should properly handle bouncing off of a 45 degree angle
    let a = vec(1.0, 0.0, -5.4);
    let normal = vec(-1.0, 1.0, 0.0).unit();
    let bounced = a.bounce_with_normal(&normal);
    // the 45-degree normal is not exactly representable, so the bounce
    // carries a little more rounding than the axis-aligned cases
    let wide = 0.0001;
    assert_close(fl(a.len()), fl(bounced.len()), wide);
    assert_close(fl(bounced.x), 0.0, wide);
    assert_close(fl(bounced.y), 1.0, wide);
    assert_close(fl(bounced.z), -5.4, wide);
}

#[test]
fn vector_test_add() {
    let a = vec(5.0, 6.0, -1.0);
    let b = vec(-13.0, 6.0, 2.5);

    let added = a.add(&b);

    assert_close(fl(added.x), 5.0 + -13.0, MARGIN_OF_ERROR);
    assert_close(fl(added.y), 6.0 + 6.0, MARGIN_OF_ERROR);
    assert_close(fl(added.z), -1.0 + 2.5, MARGIN_OF_ERROR);
}

#[test]
fn vector_test_sub() {
    let a = vec(5.0, 6.0, -1.0);
    let b = vec(-13.0, 6.0, 2.5);

    let subbed = a.sub(&b);

    assert_close(fl(subbed.x), 5.0 - -13.0, MARGIN_OF_ERROR);
    assert_close(fl(subbed.y), 6.0 - 6.0, MARGIN_OF_ERROR);
    assert_close(fl(subbed.z), -1.0 - 2.5, MARGIN_OF_ERROR);
}

#[test]
fn vector_test_mul() {
    let a = vec(5.0, 2.0, -6.0);

    let multed = a.mult(fx(3.0));

    assert_close(fl(multed.x), 5.0 * 3.0, MARGIN_OF_ERROR);
    assert_close(fl(multed.y), 2.0 * 3.0, MARGIN_OF_ERROR);
    assert_close(fl(multed.z), -6.0 * 3.0, MARGIN_OF_ERROR);
}

#[test]
fn vector_test_div() {
    let a = vec(5.0, 2.0, -6.0);

    let dived = a.div(fx(3.0));

    assert_close(fl(dived.x), 5.0 / 3.0, MARGIN_OF_ERROR);
    assert_close(fl(dived.y), 2.0 / 3.0, MARGIN_OF_ERROR);
    assert_close(fl(dived.z), -6.0 / 3.0, MARGIN_OF_ERROR);
}

#[test]
fn test_neg() {
    let a = vec(12.0, 1.234, 9.04);

    let neged = a.neg();

    assert_close(fl(neged.x), -12.0, MARGIN_OF_ERROR);
    assert_close(fl(neged.y), -1.234, MARGIN_OF_ERROR);
    assert_close(fl(neged.z), -9.04, MARGIN_OF_ERROR);
}

#[test]
fn reflect_preserves_magnitude_exactly() {
    // about an exactly-representable unit normal, the reflection of an
    // exactly-representable vector is exact
    let s = SCALE;
    let d = Vec3::new(3 * s, s, -5 * s);
    let n = Vec3::new(-s, 0, 0).norm();
    let r = d.reflect(n);
    assert_eq!(r, Vec3::new(-3 * s, s, -5 * s));
    let d2 = (d.x as i128) * (d.x as i128) + (d.y as i128) * (d.y as i128)
        + (d.z as i128) * (d.z as i128);
    let r2 = (r.x as i128) * (r.x as i128) + (r.y as i128) * (r.y as i128)
        + (r.z as i128) * (r.z as i128);
    assert_eq!(d2, r2);
}
