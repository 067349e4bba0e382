//! Tests for contour smoothing by rolling quadratic Bezier curves.

use chainkin::fixed::ONE;
use chainkin::spline::generate_quadratic_bezier_from_points;
use chainkin::spline::quadratic_bezier_points;
use chainkin::vector::Vector2;

#[test]
fn bezier_curve_starts_and_ends_on_the_triplet() {
    let p0 = Vector2::new(0, 0);
    let p1 = Vector2::new(2 * ONE, 0);
    let p2 = Vector2::new(2 * ONE, 2 * ONE);
    let curve = quadratic_bezier_points(p0, p1, p2, 2);
    assert_eq!(curve.len(), 3);
    assert_eq!(curve[0], p0);
    assert_eq!(curve[1], Vector2::new(15_000, 5_000));
    assert_eq!(curve[2], p2);
}

#[test]
fn smoothing_fewer_than_three_points_returns_them_unchanged() {
    let empty: Vec<Vector2> = Vec::new();
    assert_eq!(generate_quadratic_bezier_from_points(&empty, 4).len(), 0);

    let one = vec![Vector2::new(7, -7)];
    let r1 = generate_quadratic_bezier_from_points(&one, 4);
    assert_eq!(r1.len(), 1);
    assert_eq!(r1[0], one[0]);

    let two = vec![Vector2::new(7, -7), Vector2::new(5 * ONE, 3)];
    let r2 = generate_quadratic_bezier_from_points(&two, 4);
    assert_eq!(r2.len(), 2);
    assert_eq!(r2[0], two[0]);
    assert_eq!(r2[1], two[1]);
}

#[test]
fn smoothing_an_even_square_appends_a_closing_arc() {
    let pts = vec![
        Vector2::new(0, 0),
        Vector2::new(2 * ONE, 0),
        Vector2::new(2 * ONE, 2 * ONE),
        Vector2::new(0, 2 * ONE),
    ];
    let r = generate_quadratic_bezier_from_points(&pts, 2);
    let expected = vec![
        Vector2::new(0, 0),
        Vector2::new(15_000, 5_000),
        Vector2::new(2 * ONE, 2 * ONE),
        Vector2::new(15_000, 15_000),
        Vector2::new(0, 2 * ONE),
        Vector2::new(ONE, 2 * ONE),
        Vector2::new(0, 2 * ONE),
    ];
    assert_eq!(r, expected);
}

#[test]
fn smoothing_an_odd_contour_has_no_closing_arc() {
    let pts = vec![
        Vector2::new(0, 0),
        Vector2::new(2 * ONE, 0),
        Vector2::new(2 * ONE, 2 * ONE),
        Vector2::new(0, 2 * ONE),
        Vector2::new(-2 * ONE, 0),
    ];
    let r = generate_quadratic_bezier_from_points(&pts, 2);
    // three windows: full curve plus two seam-trimmed curves
    assert_eq!(r.len(), 3 + 2 + 2);
    assert_eq!(r[0], pts[0]);
}

#[test]
fn smoothing_is_invariant_under_translation() {
    let pts = vec![
        Vector2::new(0, 0),
        Vector2::new(2 * ONE, 0),
        Vector2::new(2 * ONE, 2 * ONE),
        Vector2::new(0, 2 * ONE),
    ];
    let shift = Vector2::new(5_000, -7_000);
    let moved: Vec<Vector2> = pts.iter().map(|p| p.add(shift)).collect();
    let smoothed = generate_quadratic_bezier_from_points(&pts, 3);
    let smoothed_moved = generate_quadratic_bezier_from_points(&moved, 3);
    assert_eq!(smoothed.len(), smoothed_moved.len());
    for i in 0..smoothed.len() {
        assert_eq!(smoothed_moved[i], smoothed[i].add(shift));
    }
}

#[test]
fn higher_resolution_emits_more_points() {
    let pts = vec![
        Vector2::new(0, 0),
        Vector2::new(2 * ONE, 0),
        Vector2::new(2 * ONE, 2 * ONE),
    ];
    let r = generate_quadratic_bezier_from_points(&pts, 50);
    assert_eq!(r.len(), 51);
    assert_eq!(r[0], pts[0]);
    assert_eq!(r[50], pts[2]);
}

#[test]
fn smoothing_repeated_points_stays_on_the_point() {
    let p = Vector2::new(ONE, ONE);
    let pts = vec![p, p, p, p];
    let r = generate_quadratic_bezier_from_points(&pts, 2);
    assert_eq!(r.len(), 7);
    for q in &r {
        assert_eq!(*q, p);
    }
}
