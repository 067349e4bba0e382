//! Angle normalisation, shortest signed angular difference, angular
//! clamping, and the fixed-point circle functions.
//!
//! An angle is a fixed-point scalar of radians (`fixed::ONE` parts per
//! radian unit). All identities are exact statements about integer
//! arithmetic modulo `TWO_PI`.

use crate::fixed::int_abs;
use crate::fixed::HALF_PI;
use crate::fixed::ONE;
use crate::fixed::PI;
use crate::fixed::QUARTER_PI;
use crate::fixed::TWO_PI;
use crate::fixed::VEC_RANGE;
use vstd::arithmetic::div_mod::lemma_div_is_ordered;
use vstd::arithmetic::div_mod::lemma_div_multiples_vanish;
use vstd::arithmetic::div_mod::lemma_div_pos_is_pos;
use vstd::arithmetic::div_mod::lemma_fundamental_div_mod;
use vstd::arithmetic::div_mod::lemma_fundamental_div_mod_converse;
use vstd::arithmetic::div_mod::lemma_mod_division_less_than_divisor;
use vstd::arithmetic::div_mod::lemma_mod_multiples_vanish;
use vstd::arithmetic::div_mod::lemma_mod_twice;
use vstd::arithmetic::div_mod::lemma_small_mod;
use vstd::prelude::*;

verus! {

/// Coefficient of the arctangent correction term, in fixed-point parts.
pub const ATAN_K: i64 = 2_730;

/// An angle reduced into `[0, TWO_PI)`: the Euclidean remainder.
pub open spec fn simplify_spec(angle: int) -> int {
    angle % (TWO_PI as int)
}

/// Signed shortest angular distance of `angle` from `anchor`, in
/// `(-PI, PI]`; adding it to `angle` lands in `anchor`'s class.
pub open spec fn rel_diff_spec(angle: int, anchor: int) -> int {
    PI - (angle + PI - anchor) % (TWO_PI as int)
}

/// `angle` clamped to within `c` of `anchor`, reduced into
/// `[0, TWO_PI)`.
pub open spec fn constrain_spec(angle: int, anchor: int, c: int) -> int {
    let d: int = rel_diff_spec(angle, anchor);
    if int_abs(d) <= c {
        simplify_spec(angle)
    } else if d > c {
        simplify_spec(anchor - c)
    } else {
        simplify_spec(anchor + c)
    }
}

/// Replacing `a` by its remainder does not change the remainder of a
/// sum: `((a % TWO_PI) + k) % TWO_PI == (a + k) % TWO_PI`.
pub proof fn lemma_mod_shift(a: int, k: int)
    ensures
        ((a % (TWO_PI as int)) + k) % (TWO_PI as int) == (a + k) % (TWO_PI as int),
{
    let t = TWO_PI as int;
    lemma_fundamental_div_mod(a, t);
    lemma_mod_multiples_vanish(-(a / t), a + k, t);
    assert(t * (-(a / t)) + (a + k) == (a % t) + k);
}

/// Subtracting a full-turn multiple does not change the remainder:
/// `(a - TWO_PI * q) % TWO_PI == a % TWO_PI`.
pub proof fn lemma_mod_drop_turns(a: int, q: int)
    ensures
        (a - (TWO_PI as int) * q) % (TWO_PI as int) == a % (TWO_PI as int),
{
    let t = TWO_PI as int;
    lemma_mod_multiples_vanish(-q, a, t);
    assert(t * (-q) + a == a - t * q);
}

/// Reducing into `[0, TWO_PI)` is idempotent: a reduced angle reduces
/// to itself.
pub proof fn lemma_simplify_angle_idempotent(angle: int)
    ensures
        simplify_spec(simplify_spec(angle)) == simplify_spec(angle),
{
    lemma_mod_twice(angle, TWO_PI as int);
}

/// The reduced angle always lies in `[0, TWO_PI)`.
pub proof fn lemma_simplify_angle_range(angle: int)
    ensures
        0 <= simplify_spec(angle) < TWO_PI,
{
    lemma_mod_division_less_than_divisor(angle, TWO_PI as int);
}

/// The shortest signed angular distance never exceeds a half turn in
/// magnitude: `-PI < rel_diff_spec(angle, anchor) <= PI`.
pub proof fn lemma_relative_angle_diff_bounds(angle: int, anchor: int)
    ensures
        -(PI as int) < rel_diff_spec(angle, anchor) <= PI,
        int_abs(rel_diff_spec(angle, anchor)) <= PI,
{
    lemma_mod_division_less_than_divisor(angle + PI - anchor, TWO_PI as int);
}

/// An angle is at distance zero from itself.
pub proof fn lemma_relative_angle_diff_self(angle: int)
    ensures
        rel_diff_spec(angle, angle) == 0,
{
    lemma_small_mod(PI as nat, TWO_PI as nat);
}

/// Adding the shortest signed distance to `angle` reaches `anchor` up
/// to full turns: the two reduce to the same angle.
pub proof fn lemma_relative_angle_diff_congruent(angle: int, anchor: int)
    ensures
        simplify_spec(angle + rel_diff_spec(angle, anchor)) == simplify_spec(anchor),
{
    let t = TWO_PI as int;
    let m: int = (angle + PI - anchor) % t;
    lemma_fundamental_div_mod(angle + PI - anchor, t);
    // angle + (PI - m) == anchor + t * ((angle + PI - anchor) / t)
    lemma_mod_drop_turns(angle + PI - m, -((angle + PI - anchor) / t));
    assert((angle + PI - m) - t * (-((angle + PI - anchor) / t)) == angle + PI - m + t * ((angle
        + PI - anchor) / t));
}

/// An angle reduced into `[0, TWO_PI)` keeps its distance from any
/// anchor.
pub proof fn lemma_rel_diff_of_simplified(angle: int, anchor: int)
    ensures
        rel_diff_spec(simplify_spec(angle), anchor) == rel_diff_spec(angle, anchor),
{
    lemma_mod_shift(angle, PI - anchor);
}

/// The clamped angle stays within `c` of the anchor: the shortest
/// signed distance of `constrain_spec(angle, anchor, c)` from `anchor`
/// has magnitude at most `c`.
pub proof fn lemma_constrain_angle_within(angle: int, anchor: int, c: int)
    requires
        0 <= c <= PI,
    ensures
        int_abs(rel_diff_spec(constrain_spec(angle, anchor, c), anchor)) <= c,
{
    let t = TWO_PI as int;
    let d: int = rel_diff_spec(angle, anchor);
    lemma_mod_division_less_than_divisor(angle + PI - anchor, t);
    if int_abs(d) <= c {
        lemma_rel_diff_of_simplified(angle, anchor);
    } else if d > c {
        // result is anchor - c reduced; its offset from anchor is PI - c
        lemma_mod_shift(anchor - c, PI - anchor);
        assert((anchor - c + PI - anchor) % t == PI - c) by {
            lemma_small_mod((PI - c) as nat, t as nat);
        }
    } else {
        // result is anchor + c reduced; its offset from anchor is PI + c
        lemma_mod_shift(anchor + c, PI - anchor);
        if c == PI {
            assert((anchor + c + PI - anchor) % t == 0) by {
                lemma_mod_drop_turns(t, 1);
                lemma_small_mod(0nat, t as nat);
            }
        } else {
            assert((anchor + c + PI - anchor) % t == PI + c) by {
                lemma_small_mod((PI + c) as nat, t as nat);
            }
        }
    }
}

/// Wraps an angle into `[0, TWO_PI)` by modular arithmetic, so the
/// result is exact at any input magnitude.
pub fn simplify_angle(angle: i64) -> (r: i64)
    ensures
        r == simplify_spec(angle as int),
        0 <= r < TWO_PI,
{
    proof {
        lemma_mod_division_less_than_divisor(angle as int, TWO_PI as int);
    }
    if angle >= 0 {
        let q: u64 = (angle as u64) % (TWO_PI as u64);
        q as i64
    } else {
        let n: u64 = (-(angle + 1)) as u64;
        let m: u64 = n % (TWO_PI as u64);
        proof {
            let t = TWO_PI as int;
            lemma_fundamental_div_mod(n as int, t);
            lemma_mod_division_less_than_divisor(n as int, t);
            // angle == -(n + 1) == t * (-(n / t) - 1) + (t - 1 - n % t)
            lemma_fundamental_div_mod_converse(
                angle as int,
                t,
                -((n as int) / t) - 1,
                t - 1 - (n as int) % t,
            );
        }
        TWO_PI - 1 - (m as i64)
    }
}

/// Signed shortest angular distance of `angle` from `anchor`,
/// in `(-PI, PI]`; zero exactly when the two angles reduce alike.
pub fn relative_angle_diff(angle: i64, anchor: i64) -> (r: i64)
    ensures
        r == rel_diff_spec(angle as int, anchor as int),
        -PI < r <= PI,
{
    let a = simplify_angle(angle);
    let b = simplify_angle(anchor);
    let s = simplify_angle(a + PI - b);
    proof {
        let t = TWO_PI as int;
        lemma_mod_shift(angle as int, PI - (b as int));
        // then replace b by anchor under the modulus
        lemma_fundamental_div_mod(anchor as int, t);
        lemma_mod_drop_turns(angle as int + PI - (anchor as int), -((anchor as int) / t));
        assert((angle as int + PI - (b as int)) == (angle as int + PI - (anchor as int)) - t * (-((
        anchor as int) / t)));
        lemma_mod_division_less_than_divisor(angle as int + PI - anchor as int, t);
    }
    PI - s
}

/// Clamps `angle` to within `c` radians of `anchor`, reduced into
/// `[0, TWO_PI)`: unchanged (up to reduction) when already within,
/// otherwise the nearer boundary `anchor - c` or `anchor + c`.
pub fn constrain_angle(angle: i64, anchor: i64, constraint: i64) -> (r: i64)
    requires
        0 <= constraint <= PI,
    ensures
        r == constrain_spec(angle as int, anchor as int, constraint as int),
        0 <= r < TWO_PI,
{
    let diff = relative_angle_diff(angle, anchor);
    let mag = if diff < 0 {
        -diff
    } else {
        diff
    };
    if mag <= constraint {
        simplify_angle(angle)
    } else {
        let b = simplify_angle(anchor);
        proof {
            let t = TWO_PI as int;
            lemma_fundamental_div_mod(anchor as int, t);
            lemma_mod_drop_turns(
                (anchor as int) - (constraint as int),
                (anchor as int) / t,
            );
            lemma_mod_drop_turns(
                (anchor as int) + (constraint as int),
                (anchor as int) / t,
            );
        }
        if diff > constraint {
            simplify_angle(b - constraint)
        } else {
            simplify_angle(b + constraint)
        }
    }
}

/// Fixed-point half-turn sine: the rational Bhaskara approximation,
/// exact as stated over integer floor division, for `x` in `[0, PI]`.
pub open spec fn sin_half(x: int) -> int {
    (16 * x * (PI - x) * (ONE as int)) / (5 * (PI as int) * (PI as int) - 4 * x * (PI - x))
}

/// Fixed-point sine of any angle: reduce into `[0, TWO_PI)`, take the
/// half-turn curve on `[0, PI]` and its negation above.
pub open spec fn sin_fp(angle: int) -> int {
    let s: int = angle % (TWO_PI as int);
    if s <= PI {
        sin_half(s)
    } else {
        -sin_half(s - PI)
    }
}

/// Fixed-point cosine: the sine shifted a quarter turn.
pub open spec fn cos_fp(angle: int) -> int {
    sin_fp(angle + HALF_PI)
}

/// Fixed-point sine on an already-reduced angle, bounded by one unit
/// in magnitude.
pub(crate) fn sin_core(s: i64) -> (r: i64)
    requires
        0 <= s < TWO_PI,
    ensures
        r == sin_fp(s as int),
        -ONE <= r <= ONE,
{
    proof {
        lemma_small_mod(s as nat, TWO_PI as nat);
    }
    let x: i64 = if s <= PI {
        s
    } else {
        s - PI
    };
    proof {
        assert(0 <= (x as int) * ((PI as int) - x) && 4 * ((x as int) * ((PI as int) - x)) <= (
        PI as int) * (PI as int)) by (nonlinear_arith)
            requires
                0 <= x <= PI,
        ;
    }
    let u: i64 = x * (PI - x);
    let num: i64 = 16 * u * ONE;
    let den: i64 = 5 * PI * PI - 4 * u;
    proof {
        assert(16 * (x as int) * ((PI as int) - x) * (ONE as int) == 16 * (u as int) * (ONE as int)
            && 5 * (PI as int) * (PI as int) - 4 * (x as int) * ((PI as int) - x) == 5 * (
        PI as int) * (PI as int) - 4 * (u as int)) by (nonlinear_arith)
            requires
                u == (x as int) * ((PI as int) - x),
        ;
    }
    let v: i64 = ((num as u64) / (den as u64)) as i64;
    proof {
        lemma_div_pos_is_pos(num as int, den as int);
        lemma_div_is_ordered(num as int, (ONE as int) * (den as int), den as int);
        lemma_div_multiples_vanish(ONE as int, den as int);
        assert((den as int) * (ONE as int) == (ONE as int) * (den as int));
    }
    if s <= PI {
        v
    } else {
        -v
    }
}

/// Fixed-point arctangent on `[0, ONE]` (ratios up to one), a linear
/// term with a quadratic correction; exact as stated, ranges over
/// `[0, QUARTER_PI]`.
pub open spec fn atan_unit(z: int) -> int {
    (z * (QUARTER_PI as int) + ((ATAN_K as int) * z * ((ONE as int) - z)) / (ONE as int)) / (
    ONE as int)
}

/// Heading of the point `(x, y)` from the positive x axis, in
/// `[-PI, PI]`: quadrant reduction around the unit arctangent, zero
/// for the origin.
pub open spec fn atan2_spec(y: int, x: int) -> int {
    if x == 0 && y == 0 {
        0
    } else {
        let ax: int = int_abs(x);
        let ay: int = int_abs(y);
        let q: int = if ay <= ax {
            atan_unit((ay * (ONE as int)) / ax)
        } else {
            (HALF_PI as int) - atan_unit((ax * (ONE as int)) / ay)
        };
        let h: int = if x >= 0 {
            q
        } else {
            (PI as int) - q
        };
        if y >= 0 {
            h
        } else {
            -h
        }
    }
}

/// Unit-interval arctangent, bounded by an eighth of a turn.
fn atan_unit_fix(z: i64) -> (r: i64)
    requires
        0 <= z <= ONE,
    ensures
        r == atan_unit(z as int),
        0 <= r <= QUARTER_PI,
{
    proof {
        assert(0 <= (ATAN_K as int) * (z as int) * ((ONE as int) - z) <= (ATAN_K as int) * (
        ONE as int) * (ONE as int)) by (nonlinear_arith)
            requires
                0 <= z <= ONE,
        ;
    }
    let t: i64 = ATAN_K * z * (ONE - z);
    assert(t + (z as int) * (QUARTER_PI as int) * (ONE as int) <= (QUARTER_PI as int) * (
    ONE as int) * (ONE as int)) by (nonlinear_arith)
        requires
            0 <= z <= ONE,
            t == (ATAN_K as int) * (z as int) * ((ONE as int) - z),
    ;
    let w: i64 = ((t as u64) / (ONE as u64)) as i64;
    proof {
        lemma_div_pos_is_pos(t as int, ONE as int);
        lemma_div_is_ordered(
            t as int,
            (QUARTER_PI as int) * (ONE as int) * (ONE as int) - (z as int) * (QUARTER_PI as int) * (
            ONE as int),
            ONE as int,
        );
        lemma_div_multiples_vanish(
            (QUARTER_PI as int) * (ONE as int) - (z as int) * (QUARTER_PI as int),
            ONE as int,
        );
        assert((ONE as int) * ((QUARTER_PI as int) * (ONE as int) - (z as int) * (QUARTER_PI as int))
            == (QUARTER_PI as int) * (ONE as int) * (ONE as int) - (z as int) * (QUARTER_PI as int)
            * (ONE as int)) by (nonlinear_arith);
    }
    let sum: i64 = z * QUARTER_PI + w;
    let r: i64 = ((sum as u64) / (ONE as u64)) as i64;
    proof {
        lemma_div_pos_is_pos(sum as int, ONE as int);
        lemma_div_is_ordered(sum as int, (QUARTER_PI as int) * (ONE as int), ONE as int);
        lemma_div_multiples_vanish(QUARTER_PI as int, ONE as int);
        assert((ONE as int) * (QUARTER_PI as int) == (QUARTER_PI as int) * (ONE as int));
    }
    r
}

/// Heading of `(x, y)`, computed by quadrant reduction; the result
/// matches `atan2_spec` exactly and lies in `[-PI, PI]`.
pub(crate) fn atan2_fix(y: i64, x: i64) -> (r: i64)
    requires
        int_abs(x as int) <= VEC_RANGE,
        int_abs(y as int) <= VEC_RANGE,
    ensures
        r == atan2_spec(y as int, x as int),
        -PI <= r <= PI,
{
    if x == 0 && y == 0 {
        return 0;
    }
    let ax: i64 = if x < 0 {
        -x
    } else {
        x
    };
    let ay: i64 = if y < 0 {
        -y
    } else {
        y
    };
    let q: i64 = if ay <= ax {
        let z: i64 = (((ay * ONE) as u64) / (ax as u64)) as i64;
        proof {
            lemma_div_pos_is_pos((ay as int) * (ONE as int), ax as int);
            lemma_div_is_ordered((ay as int) * (ONE as int), (ax as int) * (ONE as int), ax as int);
            lemma_div_multiples_vanish(ONE as int, ax as int);
            assert((ax as int) * (ONE as int) == (ONE as int) * (ax as int));
        }
        atan_unit_fix(z)
    } else {
        let z: i64 = (((ax * ONE) as u64) / (ay as u64)) as i64;
        proof {
            lemma_div_pos_is_pos((ax as int) * (ONE as int), ay as int);
            lemma_div_is_ordered((ax as int) * (ONE as int), (ay as int) * (ONE as int), ay as int);
            lemma_div_multiples_vanish(ONE as int, ay as int);
            assert((ay as int) * (ONE as int) == (ONE as int) * (ay as int));
        }
        HALF_PI - atan_unit_fix(z)
    };
    let h: i64 = if x >= 0 {
        q
    } else {
        PI - q
    };
    if y >= 0 {
        h
    } else {
        -h
    }
}

} // verus!
