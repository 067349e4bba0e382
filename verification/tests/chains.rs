//! Tests for the kinematic chain: construction, angle-constrained
//! forward kinematics and the two-pass reaching solver.

use chainkin::chain::Chain;
use chainkin::fixed::ONE;
use chainkin::fixed::PI;
use chainkin::fixed::TWO_PI;
use chainkin::vector::Vector2;

fn distance(a: Vector2, b: Vector2) -> i64 {
    a.sub(b).length()
}

#[test]
fn new_chain_stacks_joints_along_y() {
    let c = Chain::new(Vector2::new(0, 0), 3, 10 * ONE, PI / 8);
    assert_eq!(c.joints.len(), 3);
    assert_eq!(c.angles.len(), 3);
    assert_eq!(c.joints[0], Vector2::new(0, 0));
    assert_eq!(c.joints[1], Vector2::new(0, 10 * ONE));
    assert_eq!(c.joints[2], Vector2::new(0, 20 * ONE));
    assert_eq!(c.angles, vec![0, 0, 0]);
}

#[test]
fn resolve_snaps_head_to_target_with_bounded_bends() {
    let mut c = Chain::new(Vector2::new(0, 0), 3, 10 * ONE, PI / 8);
    c.resolve(Vector2::new(100 * ONE, 0));
    assert_eq!(c.joints[0], Vector2::new(100 * ONE, 0));
    assert_eq!(c.angles[0], 0);
    assert_eq!(c.joints[1], Vector2::new(900_540, 10_420));
    assert_eq!(c.joints[2], Vector2::new(802_780, 31_480));
    assert_eq!(c.angles[1], 61_801);
    assert_eq!(c.angles[2], 60_726);
    // each trailing heading bends at most PI / 8 from its predecessor
    let d1 = chainkin::angle::relative_angle_diff(c.angles[1], c.angles[0]);
    let d2 = chainkin::angle::relative_angle_diff(c.angles[2], c.angles[1]);
    assert!(d1.abs() <= PI / 8);
    assert!(d2.abs() <= PI / 8);
}

#[test]
fn resolve_keeps_adjacent_distances_at_link_size() {
    let mut c = Chain::new(Vector2::new(0, 0), 5, 10 * ONE, PI / 8);
    c.resolve(Vector2::new(37 * ONE, -12 * ONE));
    for i in 1..c.joints.len() {
        let d = distance(c.joints[i], c.joints[i - 1]);
        // within the documented 0.2 percent unit-circle quantisation
        assert!((d - 10 * ONE).abs() <= 200);
    }
}

#[test]
fn resolve_twice_follows_a_moving_target() {
    let mut c = Chain::new(Vector2::new(0, 0), 4, 5 * ONE, PI / 4);
    c.resolve(Vector2::new(20 * ONE, 0));
    c.resolve(Vector2::new(20 * ONE, 20 * ONE));
    assert_eq!(c.joints[0], Vector2::new(20 * ONE, 20 * ONE));
    for a in &c.angles {
        assert!(-PI <= *a && *a < TWO_PI);
    }
    for i in 1..c.joints.len() {
        let d = distance(c.joints[i], c.joints[i - 1]);
        assert!((d - 5 * ONE).abs() <= 100);
    }
}

#[test]
fn fabrik_reaches_both_ends_exactly_on_a_straight_chain() {
    let mut c = Chain::new(Vector2::new(0, 0), 3, 5 * ONE, PI);
    c.fabrik_resolve(Vector2::new(0, 0), Vector2::new(0, 10 * ONE));
    assert_eq!(c.joints[0], Vector2::new(0, 0));
    assert_eq!(c.joints[1], Vector2::new(0, 5 * ONE));
    assert_eq!(c.joints[2], Vector2::new(0, 10 * ONE));
}

#[test]
fn fabrik_anchors_tail_and_approximates_link_lengths() {
    let mut c = Chain::new(Vector2::new(0, 0), 3, 5 * ONE, PI);
    c.fabrik_resolve(Vector2::new(30 * ONE, 0), Vector2::new(0, 0));
    // the tail is pinned exactly
    assert_eq!(c.joints[2], Vector2::new(0, 0));
    assert_eq!(c.joints[0], Vector2::new(99_972, 1_310));
    assert_eq!(c.joints[1], Vector2::new(49_973, 1_638));
    // one pass keeps adjacent distances near the link size
    for i in 1..c.joints.len() {
        let d = distance(c.joints[i], c.joints[i - 1]);
        assert!((d - 5 * ONE).abs() <= 2);
    }
}

#[test]
fn fabrik_does_not_touch_headings() {
    let mut c = Chain::new(Vector2::new(0, 0), 3, 5 * ONE, PI);
    c.resolve(Vector2::new(10 * ONE, 0));
    let before = c.angles.clone();
    c.fabrik_resolve(Vector2::new(0, 0), Vector2::new(0, 10 * ONE));
    assert_eq!(c.angles, before);
}

#[test]
fn resolve_with_target_on_the_head_is_well_defined() {
    // the offset from the head to the target is the zero vector, whose
    // heading falls back to zero
    let mut c = Chain::new(Vector2::new(0, 0), 3, 5 * ONE, PI / 8);
    c.resolve(Vector2::new(0, 0));
    assert_eq!(c.joints[0], Vector2::new(0, 0));
    assert_eq!(c.angles[0], 0);
    assert_eq!(c.joints[1], Vector2::new(-46_150, 19_175));
    assert_eq!(c.angles[1], 58_905);
}

#[test]
fn full_size_spine_keeps_invariants() {
    let mut c = Chain::new(Vector2::new(0, 0), 48, 64 * ONE, PI / 8);
    c.resolve(Vector2::new(500 * ONE, -300 * ONE));
    assert_eq!(c.joints.len(), 48);
    assert_eq!(c.joints[0], Vector2::new(500 * ONE, -300 * ONE));
    for i in 1..c.joints.len() {
        let d = distance(c.joints[i], c.joints[i - 1]);
        assert!((d - 64 * ONE).abs() <= 1300);
        let bend = chainkin::angle::relative_angle_diff(c.angles[i], c.angles[i - 1]);
        assert!(bend.abs() <= PI / 8);
    }
}
