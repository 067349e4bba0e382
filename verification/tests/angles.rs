//! Tests for angle normalisation, signed angular distance and
//! angular clamping.

use chainkin::angle::constrain_angle;
use chainkin::angle::relative_angle_diff;
use chainkin::angle::simplify_angle;
use chainkin::fixed::HALF_PI;
use chainkin::fixed::PI;
use chainkin::fixed::TWO_PI;

#[test]
fn simplify_angle_reduces_into_full_turn() {
    assert_eq!(simplify_angle(0), 0);
    assert_eq!(simplify_angle(TWO_PI), 0);
    assert_eq!(simplify_angle(TWO_PI + 5), 5);
    assert_eq!(simplify_angle(7 * TWO_PI + 5), 5);
    assert_eq!(simplify_angle(-1), TWO_PI - 1);
    assert_eq!(simplify_angle(-TWO_PI), 0);
    assert_eq!(simplify_angle(PI), PI);
}

#[test]
fn simplify_angle_is_exact_at_extreme_magnitudes() {
    assert_eq!(simplify_angle(i64::MAX), i64::MAX % TWO_PI);
    assert_eq!(simplify_angle(i64::MIN), 12928);
    let r = simplify_angle(i64::MIN + 1);
    assert!(0 <= r && r < TWO_PI);
    assert_eq!(r, 12929);
}

#[test]
fn simplify_angle_is_idempotent_on_samples() {
    for a in [-900_000_i64, -1, 0, 5, PI, TWO_PI - 1, TWO_PI, 123_456_789] {
        let once = simplify_angle(a);
        assert_eq!(simplify_angle(once), once);
        assert!(0 <= once && once < TWO_PI);
    }
}

#[test]
fn relative_angle_diff_of_anchor_with_itself_is_zero() {
    for a in [-900_000_i64, -1, 0, 5, PI, HALF_PI, 123_456_789] {
        assert_eq!(relative_angle_diff(a, a), 0);
    }
}

#[test]
fn relative_angle_diff_is_bounded_by_half_turn() {
    for a in [-900_000_i64, -1, 0, 5, PI, TWO_PI, 123_456_789] {
        for anchor in [-333_333_i64, 0, 7, HALF_PI, PI, 999_999] {
            let d = relative_angle_diff(a, anchor);
            assert!(-PI < d && d <= PI);
        }
    }
}

#[test]
fn relative_angle_diff_signed_values() {
    assert_eq!(relative_angle_diff(0, PI), PI);
    assert_eq!(relative_angle_diff(PI, 0), PI);
    assert_eq!(relative_angle_diff(1000, 0), -1000);
    assert_eq!(relative_angle_diff(-5000, 0), 5000);
    assert_eq!(relative_angle_diff(TWO_PI + 1000, 0), -1000);
}

#[test]
fn constrain_angle_keeps_angles_already_within() {
    assert_eq!(constrain_angle(1000, 0, 2000), 1000);
    assert_eq!(constrain_angle(-1000, 0, 2000), TWO_PI - 1000);
    assert_eq!(constrain_angle(TWO_PI + 500, 0, 2000), 500);
}

#[test]
fn constrain_angle_clamps_to_the_nearer_boundary() {
    assert_eq!(constrain_angle(5000, 0, 2000), 2000);
    assert_eq!(constrain_angle(-5000, 0, 2000), TWO_PI - 2000);
}

#[test]
fn constrain_angle_result_stays_within_constraint() {
    for a in [-70_000_i64, -5000, 0, 5000, 20_000, 70_000] {
        for anchor in [-3000_i64, 0, 10_000, 40_000] {
            for c in [0_i64, 1000, HALF_PI, PI] {
                let r = constrain_angle(a, anchor, c);
                let d = relative_angle_diff(r, anchor);
                assert!(d.abs() <= c);
                assert!(0 <= r && r < TWO_PI);
            }
        }
    }
}
