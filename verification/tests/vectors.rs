//! Tests for the planar vector operations: arithmetic, heading,
//! magnitude and magnitude rescaling.

use chainkin::fixed::HALF_PI;
use chainkin::fixed::ONE;
use chainkin::fixed::PI;
use chainkin::fixed::QUARTER_PI;
use chainkin::vector::constrain_distance;
use chainkin::vector::Vector2;

#[test]
fn arithmetic_is_component_wise() {
    let a = Vector2::new(3 * ONE, -2 * ONE);
    let b = Vector2::new(-ONE, 5 * ONE);
    let s = a.add(b);
    assert_eq!(s.x, 2 * ONE);
    assert_eq!(s.y, 3 * ONE);
    let d = a.sub(b);
    assert_eq!(d.x, 4 * ONE);
    assert_eq!(d.y, -7 * ONE);
    let m = a.mul(2 * ONE);
    assert_eq!(m.x, 6 * ONE);
    assert_eq!(m.y, -4 * ONE);
}

#[test]
fn addition_commutes_on_samples() {
    let a = Vector2::new(123_456, -789);
    let b = Vector2::new(-555, 44_444);
    assert_eq!(a.add(b), b.add(a));
}

#[test]
fn length_of_a_pythagorean_vector_is_exact() {
    let v = Vector2::new(3 * ONE, 4 * ONE);
    assert_eq!(v.length(), 5 * ONE);
    let w = Vector2::new(-3 * ONE, 4 * ONE);
    assert_eq!(w.length(), 5 * ONE);
}

#[test]
fn length_rounds_down() {
    assert_eq!(Vector2::new(1, 1).length(), 1);
    assert_eq!(Vector2::new(0, 0).length(), 0);
    assert_eq!(Vector2::new(10, 0).length(), 10);
}

#[test]
fn set_mag_of_zero_vector_falls_back_to_zero() {
    let z = Vector2::new(0, 0);
    let r = z.set_mag(7 * ONE);
    assert_eq!(r.x, 0);
    assert_eq!(r.y, 0);
}

#[test]
fn set_mag_rescales_exactly_on_exact_magnitudes() {
    let v = Vector2::new(3 * ONE, 4 * ONE);
    let r = v.set_mag(10 * ONE);
    assert_eq!(r.x, 6 * ONE);
    assert_eq!(r.y, 8 * ONE);
    let w = Vector2::new(-3 * ONE, 4 * ONE);
    let s = w.set_mag(5 * ONE);
    assert_eq!(s.x, -3 * ONE);
    assert_eq!(s.y, 4 * ONE);
}

#[test]
fn set_mag_floor_divides_inexact_magnitudes() {
    let v = Vector2::new(1, 2);
    let r = v.set_mag(10);
    assert_eq!(r.x, 5);
    assert_eq!(r.y, 10);
}

#[test]
fn from_angle_hits_the_axes_exactly() {
    let e = Vector2::from_angle(0);
    assert_eq!(e.x, ONE);
    assert_eq!(e.y, 0);
    let n = Vector2::from_angle(HALF_PI);
    assert_eq!(n.x, 0);
    assert_eq!(n.y, ONE);
    let w = Vector2::from_angle(PI);
    assert_eq!(w.x, -ONE);
    assert_eq!(w.y, 0);
    let s = Vector2::from_angle(-HALF_PI);
    assert_eq!(s.x, 0);
    assert_eq!(s.y, -ONE);
}

#[test]
fn from_angle_thirty_degrees() {
    let v = Vector2::from_angle(PI / 6);
    assert_eq!(v.y, ONE / 2);
    assert_eq!(v.x, 8648);
}

#[test]
fn heading_of_axis_vectors() {
    assert_eq!(Vector2::new(100, 0).heading(), 0);
    assert_eq!(Vector2::new(0, 100).heading(), HALF_PI);
    assert_eq!(Vector2::new(-100, 0).heading(), PI);
    assert_eq!(Vector2::new(0, -100).heading(), -HALF_PI);
    assert_eq!(Vector2::new(100, 100).heading(), QUARTER_PI);
    assert_eq!(Vector2::new(0, 0).heading(), 0);
}

#[test]
fn heading_of_a_shallow_vector() {
    assert_eq!(Vector2::new(1_000_000, 100_000).heading(), 1031);
    assert_eq!(Vector2::new(1_000_000, -100_000).heading(), -1031);
    assert_eq!(Vector2::new(-1_000_000, 100_000).heading(), PI - 1031);
}

#[test]
fn constrain_distance_fixes_points_already_on_the_circle() {
    let anchor = Vector2::new(0, 0);
    let pos = Vector2::new(0, 5 * ONE);
    let r = constrain_distance(pos, anchor, 5 * ONE);
    assert_eq!(r.x, 0);
    assert_eq!(r.y, 5 * ONE);
}

#[test]
fn constrain_distance_projects_onto_the_circle() {
    let anchor = Vector2::new(0, 0);
    let pos = Vector2::new(0, 7 * ONE);
    let r = constrain_distance(pos, anchor, 5 * ONE);
    assert_eq!(r.x, 0);
    assert_eq!(r.y, 5 * ONE);
    let q = constrain_distance(Vector2::new(0, 0), Vector2::new(0, 7 * ONE), 5 * ONE);
    assert_eq!(q.x, 0);
    assert_eq!(q.y, 2 * ONE);
}
