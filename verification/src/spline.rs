//! Contour smoothing: rolling quadratic Bezier curves through
//! overlapping triplets of an ordered point sequence, with an extra
//! closing arc when the input count is even.
//!
//! Curve evaluation is exact integer arithmetic: the point of a
//! triplet `(p0, p1, p2)` at step `k` of `steps` is the Bernstein
//! combination with weights `(steps - k)^2`, `2 (steps - k) k`,
//! `k^2`, floor-divided by `steps^2` component-wise.

use crate::fixed::div_floor;
use crate::fixed::int_abs;
use crate::fixed::lemma_div_sym_bound;
use crate::fixed::MAX_COORD;
use crate::vector::in_range;
use crate::vector::v_add;
use crate::vector::Vector2;
use vstd::prelude::*;

verus! {

/// Largest accepted curve resolution.
pub const MAX_STEPS: usize = 1_000;

/// One component of a quadratic Bezier point: the Bernstein
/// combination at step `k` of `steps`, floor-divided by `steps^2`.
pub open spec fn bezier_component_spec(a0: int, a1: int, a2: int, steps: int, k: int) -> int {
    let u: int = steps - k;
    (u * u * a0 + 2 * u * k * a1 + k * k * a2) / (steps * steps)
}

/// The quadratic Bezier point of the triplet `(p0, p1, p2)` at step
/// `k` of `steps`.
pub open spec fn bezier_point_spec(p0: Vector2, p1: Vector2, p2: Vector2, steps: int, k: int) -> Vector2 {
    Vector2 {
        x: bezier_component_spec(p0.x as int, p1.x as int, p2.x as int, steps, k) as i64,
        y: bezier_component_spec(p0.y as int, p1.y as int, p2.y as int, steps, k) as i64,
    }
}

/// The whole sampled curve of a triplet: `steps + 1` points from the
/// start point (step zero) to the end point (step `steps`).
pub open spec fn bezier_seq(p0: Vector2, p1: Vector2, p2: Vector2, steps: int) -> Seq<Vector2> {
    Seq::new((steps + 1) as nat, |k: int| bezier_point_spec(p0, p1, p2, steps, k))
}

/// Component-wise midpoint, floor-divided.
pub open spec fn midpoint_spec(a: Vector2, b: Vector2) -> Vector2 {
    Vector2 { x: ((a.x + b.x) / 2) as i64, y: ((a.y + b.y) / 2) as i64 }
}

/// The curve points contributed by the first `w` triplet windows: the
/// full curve of the first window, then every later window's curve
/// with its first point dropped, since it coincides with the previous
/// window's last emitted region.
pub open spec fn segments_upto(pts: Seq<Vector2>, steps: int, w: int) -> Seq<Vector2>
    decreases w,
{
    if w <= 0 {
        Seq::empty()
    } else if w == 1 {
        bezier_seq(pts[0], pts[1], pts[2], steps)
    } else {
        segments_upto(pts, steps, w - 1) + bezier_seq(pts[w - 1], pts[w], pts[w + 1], steps).skip(1)
    }
}

/// The closing arc appended for an even input count: a curve from the
/// second-to-last point to the last, controlled by their midpoint,
/// with its duplicated first point dropped; empty for an odd count.
pub open spec fn closing_segment(pts: Seq<Vector2>, steps: int) -> Seq<Vector2> {
    if pts.len() % 2 == 0 {
        let a = pts[pts.len() - 2];
        let b = pts[pts.len() - 1];
        bezier_seq(a, midpoint_spec(a, b), b, steps).skip(1)
    } else {
        Seq::empty()
    }
}

/// The smoothed contour: inputs of fewer than three points pass
/// through unchanged; otherwise the stitched window curves plus the
/// closing arc.
pub open spec fn smooth_spec(pts: Seq<Vector2>, steps: int) -> Seq<Vector2> {
    if pts.len() < 3 {
        pts
    } else {
        segments_upto(pts, steps, pts.len() - 2) + closing_segment(pts, steps)
    }
}

/// One Bezier component, exactly `bezier_component_spec` and within
/// the coordinate range.
fn bezier_component(a0: i64, a1: i64, a2: i64, steps: i64, k: i64) -> (r: i64)
    requires
        1 <= steps <= MAX_STEPS,
        0 <= k <= steps,
        int_abs(a0 as int) <= MAX_COORD,
        int_abs(a1 as int) <= MAX_COORD,
        int_abs(a2 as int) <= MAX_COORD,
    ensures
        r == bezier_component_spec(a0 as int, a1 as int, a2 as int, steps as int, k as int),
        int_abs(r as int) <= MAX_COORD,
{
    let u: i64 = steps - k;
    proof {
        assert(0 <= (u as int) * (u as int) <= 1_000_000 && 0 <= (k as int) * (k as int)
            <= 1_000_000 && 0 <= 2 * (u as int) * (k as int) <= 2_000_000 && (u as int) * (u as int)
            * (a0 as int) + 2 * (u as int) * (k as int) * (a1 as int) + (k as int) * (k as int) * (
        a2 as int) <= ((steps as int) * (steps as int)) * (MAX_COORD as int) && -(((steps as int) * (
        steps as int)) * (MAX_COORD as int)) <= (u as int) * (u as int) * (a0 as int) + 2 * (
        u as int) * (k as int) * (a1 as int) + (k as int) * (k as int) * (a2 as int) && 1 <= (
        steps as int) * (steps as int) <= 1_000_000 && -(u as int) * (u as int) * (MAX_COORD as int)
            <= (u as int) * (u as int) * (a0 as int) <= (u as int) * (u as int) * (MAX_COORD as int)
            && -(2 * (u as int) * (k as int)) * (MAX_COORD as int) <= 2 * (u as int) * (k as int) * (
        a1 as int) <= (2 * (u as int) * (k as int)) * (MAX_COORD as int) && -(k as int) * (k as int)
            * (MAX_COORD as int) <= (k as int) * (k as int) * (a2 as int) <= (k as int) * (k as int)
            * (MAX_COORD as int)) by (nonlinear_arith)
            requires
                0 <= u <= 1_000,
                0 <= k <= 1_000,
                u + k == steps,
                1 <= steps <= 1_000,
                int_abs(a0 as int) <= MAX_COORD,
                int_abs(a1 as int) <= MAX_COORD,
                int_abs(a2 as int) <= MAX_COORD,
        ;
    }
    let num: i64 = u * u * a0 + 2 * u * k * a1 + k * k * a2;
    let den: i64 = steps * steps;
    let r = div_floor(num, den);
    proof {
        lemma_div_sym_bound(num as int, MAX_COORD as int, den as int);
        assert((MAX_COORD as int) * (den as int) == (den as int) * (MAX_COORD as int))
            by (nonlinear_arith);
    }
    r
}

/// The sampled quadratic Bezier curve of one triplet: `steps + 1`
/// points, starting on `p0` and ending on `p2`.
pub fn quadratic_bezier_points(p0: Vector2, p1: Vector2, p2: Vector2, steps: usize) -> (r: Vec<
    Vector2>)
    requires
        1 <= steps <= MAX_STEPS,
        in_range(p0, MAX_COORD as int),
        in_range(p1, MAX_COORD as int),
        in_range(p2, MAX_COORD as int),
    ensures
        r@ == bezier_seq(p0, p1, p2, steps as int),
        r@.len() == steps + 1,
        forall|k: int| 0 <= k < r@.len() ==> in_range(#[trigger] r@[k], MAX_COORD as int),
{
    let s: i64 = steps as i64;
    let mut out: Vec<Vector2> = Vec::new();
    let mut k: i64 = 0;
    while k <= s
        invariant
            1 <= s <= MAX_STEPS,
            0 <= k <= s + 1,
            in_range(p0, MAX_COORD as int),
            in_range(p1, MAX_COORD as int),
            in_range(p2, MAX_COORD as int),
            out@.len() == k,
            forall|j: int|
                0 <= j < k ==> #[trigger] out@[j] == bezier_point_spec(p0, p1, p2, s as int, j),
            forall|j: int| 0 <= j < k ==> in_range(#[trigger] out@[j], MAX_COORD as int),
        decreases s + 1 - k,
    {
        let x = bezier_component(p0.x, p1.x, p2.x, s, k);
        let y = bezier_component(p0.y, p1.y, p2.y, s, k);
        out.push(Vector2 { x, y });
        k += 1;
    }
    proof {
        assert(out@ =~= bezier_seq(p0, p1, p2, steps as int));
    }
    out
}

/// Smooths a contour polyline by rolling quadratic Bezier curves:
/// each consecutive triplet contributes its sampled curve with
/// duplicated seam points dropped, and an even input count closes
/// with a final arc from the second-to-last to the last point. Inputs
/// of fewer than three points are returned unchanged.
pub fn generate_quadratic_bezier_from_points(points: &Vec<Vector2>, steps: usize) -> (r: Vec<
    Vector2>)
    requires
        1 <= steps <= MAX_STEPS,
        forall|i: int| 0 <= i < points@.len() ==> in_range(#[trigger] points@[i], MAX_COORD as int),
    ensures
        r@ == smooth_spec(points@, steps as int),
{
    let n = points.len();
    if n < 3 {
        let mut out: Vec<Vector2> = Vec::new();
        let mut i: usize = 0;
        while i < n
            invariant
                0 <= i <= n,
                n == points@.len(),
                out@.len() == i,
                forall|j: int| 0 <= j < i ==> #[trigger] out@[j] == points@[j],
            decreases n - i,
        {
            out.push(points[i]);
            i += 1;
        }
        proof {
            assert(out@ =~= smooth_spec(points@, steps as int));
        }
        return out;
    }
    let mut out = quadratic_bezier_points(points[0], points[1], points[2], steps);
    let mut w: usize = 1;
    while w + 2 < n
        invariant
            1 <= w <= n - 2,
            n == points@.len(),
            3 <= n,
            1 <= steps <= MAX_STEPS,
            forall|i: int|
                0 <= i < points@.len() ==> in_range(#[trigger] points@[i], MAX_COORD as int),
            out@ == segments_upto(points@, steps as int, w as int),
        decreases n - w,
    {
        let seg = quadratic_bezier_points(points[w], points[w + 1], points[w + 2], steps);
        let ghost out_before = out@;
        let mut t: usize = 1;
        while t < seg.len()
            invariant
                1 <= t <= seg@.len(),
                seg@.len() == steps + 1,
                out@ == out_before + seg@.subrange(1, t as int),
            decreases seg@.len() - t,
        {
            out.push(seg[t]);
            proof {
                assert(out@ =~= out_before + seg@.subrange(1, t + 1));
            }
            t += 1;
        }
        proof {
            assert(seg@.subrange(1, seg@.len() as int) =~= seg@.skip(1));
            assert(out@ =~= segments_upto(points@, steps as int, w as int + 1));
        }
        w += 1;
    }
    if n % 2 == 0 {
        let a = points[n - 2];
        let b = points[n - 1];
        let mid = Vector2 { x: div_floor(a.x + b.x, 2), y: div_floor(a.y + b.y, 2) };
        proof {
            lemma_div_sym_bound(a.x as int + b.x as int, MAX_COORD as int, 2);
            lemma_div_sym_bound(a.y as int + b.y as int, MAX_COORD as int, 2);
            assert(mid == midpoint_spec(a, b));
        }
        let seg = quadratic_bezier_points(a, mid, b, steps);
        let ghost out_before = out@;
        let mut t: usize = 1;
        while t < seg.len()
            invariant
                1 <= t <= seg@.len(),
                seg@.len() == steps + 1,
                out@ == out_before + seg@.subrange(1, t as int),
            decreases seg@.len() - t,
        {
            out.push(seg[t]);
            proof {
                assert(out@ =~= out_before + seg@.subrange(1, t + 1));
            }
            t += 1;
        }
        proof {
            assert(seg@.subrange(1, seg@.len() as int) =~= seg@.skip(1));
            assert(out@ =~= smooth_spec(points@, steps as int));
        }
    } else {
        proof {
            assert(out@ =~= smooth_spec(points@, steps as int));
        }
    }
    out
}

/// Every input point shifted by the same displacement.
pub open spec fn translate_seq(pts: Seq<Vector2>, v: Vector2) -> Seq<Vector2> {
    Seq::new(pts.len(), |i: int| v_add(pts[i], v))
}

/// A Bezier component stays within the coordinate range of its
/// control components.
proof fn lemma_bezier_component_bounds(a0: int, a1: int, a2: int, steps: int, k: int)
    requires
        1 <= steps <= MAX_STEPS,
        0 <= k <= steps,
        int_abs(a0) <= MAX_COORD,
        int_abs(a1) <= MAX_COORD,
        int_abs(a2) <= MAX_COORD,
    ensures
        int_abs(bezier_component_spec(a0, a1, a2, steps, k)) <= MAX_COORD,
{
    let u: int = steps - k;
    let num: int = u * u * a0 + 2 * u * k * a1 + k * k * a2;
    assert(-(u * u) * (MAX_COORD as int) <= u * u * a0 <= (u * u) * (MAX_COORD as int) && -(2 * u
        * k) * (MAX_COORD as int) <= 2 * u * k * a1 <= (2 * u * k) * (MAX_COORD as int) && -(k * k)
        * (MAX_COORD as int) <= k * k * a2 <= (k * k) * (MAX_COORD as int) && (u * u) * (
    MAX_COORD as int) + (2 * u * k) * (MAX_COORD as int) + (k * k) * (MAX_COORD as int) == (
    MAX_COORD as int) * (steps * steps) && 1 <= steps * steps) by (nonlinear_arith)
        requires
            0 <= u,
            0 <= k,
            u + k == steps,
            1 <= steps,
            int_abs(a0) <= MAX_COORD,
            int_abs(a1) <= MAX_COORD,
            int_abs(a2) <= MAX_COORD,
    ;
    lemma_div_sym_bound(num, MAX_COORD as int, steps * steps);
}

/// Translating all three control components translates every curve
/// component by the same amount.
proof fn lemma_bezier_component_translate(a0: int, a1: int, a2: int, steps: int, k: int, d: int)
    requires
        1 <= steps <= MAX_STEPS,
        0 <= k <= steps,
    ensures
        bezier_component_spec(a0 + d, a1 + d, a2 + d, steps, k) == bezier_component_spec(
            a0,
            a1,
            a2,
            steps,
            k,
        ) + d,
{
    let u: int = steps - k;
    let num: int = u * u * a0 + 2 * u * k * a1 + k * k * a2;
    let den: int = steps * steps;
    assert(u * u * (a0 + d) + 2 * u * k * (a1 + d) + k * k * (a2 + d) == num + d * den && 1 <= den)
        by (nonlinear_arith)
        requires
            u + k == steps,
            1 <= steps,
            num == u * u * a0 + 2 * u * k * a1 + k * k * a2,
            den == steps * steps,
    ;
    vstd::arithmetic::div_mod::lemma_hoist_over_denominator(num, d, den as nat);
}

/// Translating the triplet translates every sampled curve point.
proof fn lemma_bezier_point_translate(
    p0: Vector2,
    p1: Vector2,
    p2: Vector2,
    steps: int,
    k: int,
    v: Vector2,
)
    requires
        1 <= steps <= MAX_STEPS,
        0 <= k <= steps,
        in_range(p0, MAX_COORD as int),
        in_range(p1, MAX_COORD as int),
        in_range(p2, MAX_COORD as int),
        in_range(v_add(p0, v), MAX_COORD as int),
        in_range(v_add(p1, v), MAX_COORD as int),
        in_range(v_add(p2, v), MAX_COORD as int),
        in_range(v, MAX_COORD as int),
    ensures
        bezier_point_spec(v_add(p0, v), v_add(p1, v), v_add(p2, v), steps, k) == v_add(
            bezier_point_spec(p0, p1, p2, steps, k),
            v,
        ),
{
    lemma_bezier_component_bounds(p0.x as int, p1.x as int, p2.x as int, steps, k);
    lemma_bezier_component_bounds(p0.y as int, p1.y as int, p2.y as int, steps, k);
    lemma_bezier_component_translate(
        p0.x as int,
        p1.x as int,
        p2.x as int,
        steps,
        k,
        v.x as int,
    );
    lemma_bezier_component_translate(
        p0.y as int,
        p1.y as int,
        p2.y as int,
        steps,
        k,
        v.y as int,
    );
}

/// Translating the triplet translates the whole sampled curve.
proof fn lemma_bezier_seq_translate(p0: Vector2, p1: Vector2, p2: Vector2, steps: int, v: Vector2)
    requires
        1 <= steps <= MAX_STEPS,
        in_range(p0, MAX_COORD as int),
        in_range(p1, MAX_COORD as int),
        in_range(p2, MAX_COORD as int),
        in_range(v_add(p0, v), MAX_COORD as int),
        in_range(v_add(p1, v), MAX_COORD as int),
        in_range(v_add(p2, v), MAX_COORD as int),
        in_range(v, MAX_COORD as int),
    ensures
        bezier_seq(v_add(p0, v), v_add(p1, v), v_add(p2, v), steps) == translate_seq(
            bezier_seq(p0, p1, p2, steps),
            v,
        ),
{
    assert forall|k: int| 0 <= k < steps + 1 implies #[trigger] bezier_seq(
        v_add(p0, v),
        v_add(p1, v),
        v_add(p2, v),
        steps,
    )[k] == translate_seq(bezier_seq(p0, p1, p2, steps), v)[k] by {
        lemma_bezier_point_translate(p0, p1, p2, steps, k, v);
    }
    assert(bezier_seq(v_add(p0, v), v_add(p1, v), v_add(p2, v), steps) =~= translate_seq(
        bezier_seq(p0, p1, p2, steps),
        v,
    ));
}

/// Translation distributes over sequence concatenation.
proof fn lemma_translate_concat(a: Seq<Vector2>, b: Seq<Vector2>, v: Vector2)
    ensures
        translate_seq(a + b, v) == translate_seq(a, v) + translate_seq(b, v),
{
    assert(translate_seq(a + b, v) =~= translate_seq(a, v) + translate_seq(b, v));
}

/// Translation commutes with dropping a prefix.
proof fn lemma_translate_skip(a: Seq<Vector2>, n: int, v: Vector2)
    requires
        0 <= n <= a.len(),
    ensures
        translate_seq(a.skip(n), v) == translate_seq(a, v).skip(n),
{
    assert(translate_seq(a.skip(n), v) =~= translate_seq(a, v).skip(n));
}

/// Translating the input translates every stitched window curve.
proof fn lemma_segments_upto_translate(pts: Seq<Vector2>, steps: int, w: int, v: Vector2)
    requires
        1 <= steps <= MAX_STEPS,
        3 <= pts.len(),
        w <= pts.len() - 2,
        in_range(v, MAX_COORD as int),
        forall|i: int|
            0 <= i < pts.len() ==> in_range(#[trigger] pts[i], MAX_COORD as int) && in_range(
                v_add(pts[i], v),
                MAX_COORD as int,
            ),
    ensures
        segments_upto(translate_seq(pts, v), steps, w) == translate_seq(
            segments_upto(pts, steps, w),
            v,
        ),
    decreases w,
{
    let tp = translate_seq(pts, v);
    if w <= 0 {
        assert(segments_upto(tp, steps, w) =~= translate_seq(segments_upto(pts, steps, w), v));
    } else if w == 1 {
        lemma_bezier_seq_translate(pts[0], pts[1], pts[2], steps, v);
    } else {
        lemma_segments_upto_translate(pts, steps, w - 1, v);
        lemma_bezier_seq_translate(pts[w - 1], pts[w], pts[w + 1], steps, v);
        lemma_translate_skip(bezier_seq(pts[w - 1], pts[w], pts[w + 1], steps), 1, v);
        lemma_translate_concat(
            segments_upto(pts, steps, w - 1),
            bezier_seq(pts[w - 1], pts[w], pts[w + 1], steps).skip(1),
            v,
        );
    }
}

/// Translating both ends translates their floor midpoint, and keeps
/// it in range.
proof fn lemma_midpoint_translate(a: Vector2, b: Vector2, v: Vector2)
    requires
        in_range(a, MAX_COORD as int),
        in_range(b, MAX_COORD as int),
        in_range(v_add(a, v), MAX_COORD as int),
        in_range(v_add(b, v), MAX_COORD as int),
        in_range(v, MAX_COORD as int),
    ensures
        midpoint_spec(v_add(a, v), v_add(b, v)) == v_add(midpoint_spec(a, b), v),
        in_range(midpoint_spec(a, b), MAX_COORD as int),
        in_range(v_add(midpoint_spec(a, b), v), MAX_COORD as int),
{
    lemma_div_sym_bound(a.x as int + b.x as int, MAX_COORD as int, 2);
    lemma_div_sym_bound(a.y as int + b.y as int, MAX_COORD as int, 2);
    lemma_div_sym_bound(a.x as int + v.x + b.x + v.x, MAX_COORD as int, 2);
    lemma_div_sym_bound(a.y as int + v.y + b.y + v.y, MAX_COORD as int, 2);
    vstd::arithmetic::div_mod::lemma_hoist_over_denominator(a.x as int + b.x, v.x as int, 2nat);
    vstd::arithmetic::div_mod::lemma_hoist_over_denominator(a.y as int + b.y, v.y as int, 2nat);
}

/// Smoothing commutes with global translation: smoothing a contour
/// shifted by `v` gives the smoothed contour shifted by `v`, provided
/// the contour stays within the coordinate range both before and
/// after the shift.
pub proof fn lemma_smooth_translation_invariant(pts: Seq<Vector2>, steps: int, v: Vector2)
    requires
        1 <= steps <= MAX_STEPS,
        in_range(v, MAX_COORD as int),
        forall|i: int|
            0 <= i < pts.len() ==> in_range(#[trigger] pts[i], MAX_COORD as int) && in_range(
                v_add(pts[i], v),
                MAX_COORD as int,
            ),
    ensures
        smooth_spec(translate_seq(pts, v), steps) == translate_seq(smooth_spec(pts, steps), v),
{
    let tp = translate_seq(pts, v);
    if pts.len() < 3 {
        assert(smooth_spec(tp, steps) =~= translate_seq(smooth_spec(pts, steps), v));
    } else {
        let n = pts.len() as int;
        lemma_segments_upto_translate(pts, steps, n - 2, v);
        let a = pts[n - 2];
        let b = pts[n - 1];
        if pts.len() % 2 == 0 {
            lemma_midpoint_translate(a, b, v);
            lemma_bezier_seq_translate(a, midpoint_spec(a, b), b, steps, v);
            lemma_translate_skip(bezier_seq(a, midpoint_spec(a, b), b, steps), 1, v);
            assert(closing_segment(tp, steps) == translate_seq(closing_segment(pts, steps), v));
        } else {
            assert(closing_segment(tp, steps) =~= translate_seq(closing_segment(pts, steps), v));
        }
        lemma_translate_concat(segments_upto(pts, steps, n - 2), closing_segment(pts, steps), v);
    }
}

} // verus!
