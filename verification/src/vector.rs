//! The planar vector value type: component-wise arithmetic, heading
//! extraction, magnitude, and magnitude rescaling, all on fixed-point
//! components with exact integer contracts.

use crate::angle::atan2_fix;
use crate::angle::atan2_spec;
use crate::angle::cos_fp;
use crate::angle::sin_core;
use crate::angle::sin_fp;
use crate::angle::simplify_angle;
use crate::fixed::div_floor;
use crate::fixed::int_abs;
use crate::fixed::isqrt;
use crate::fixed::lemma_div_sym_bound;
use crate::fixed::lemma_sqrt_floor_bounds;
use crate::fixed::sqrt_floor;
use crate::fixed::HALF_PI;
use crate::fixed::MAX_COORD;
use crate::fixed::ONE;
use crate::fixed::PI;
use crate::fixed::TWO_PI;
use crate::fixed::VEC_RANGE;
use vstd::arithmetic::div_mod::lemma_small_mod;
use vstd::prelude::*;

verus! {

/// A 2D point or displacement with fixed-point components.
#[derive(Clone, Copy, Debug, PartialEq, Eq, Structural)]
pub struct Vector2 {
    pub x: i64,
    pub y: i64,
}

/// Both components within `bound` in magnitude.
pub open spec fn in_range(v: Vector2, bound: int) -> bool {
    int_abs(v.x as int) <= bound && int_abs(v.y as int) <= bound
}

/// Component-wise sum.
pub open spec fn v_add(a: Vector2, b: Vector2) -> Vector2 {
    Vector2 { x: (a.x + b.x) as i64, y: (a.y + b.y) as i64 }
}

/// Component-wise difference.
pub open spec fn v_sub(a: Vector2, b: Vector2) -> Vector2 {
    Vector2 { x: (a.x - b.x) as i64, y: (a.y - b.y) as i64 }
}

/// Scaling by a fixed-point factor, with floor division back to scale.
pub open spec fn v_scale(v: Vector2, s: int) -> Vector2 {
    Vector2 {
        x: ((v.x * s) / (ONE as int)) as i64,
        y: ((v.y * s) / (ONE as int)) as i64,
    }
}

/// The squared magnitude, exact in integers.
pub open spec fn mag_sq(v: Vector2) -> int {
    v.x * v.x + v.y * v.y
}

/// The magnitude, rounded down to an integer.
pub open spec fn mag_spec(v: Vector2) -> int {
    sqrt_floor(mag_sq(v))
}

/// The unit vector of an angle: fixed-point cosine and sine.
pub open spec fn from_angle_spec(angle: int) -> Vector2 {
    Vector2 { x: cos_fp(angle) as i64, y: sin_fp(angle) as i64 }
}

/// `v` rescaled so its magnitude becomes `len` (each component is
/// multiplied by `len` and floor-divided by the old magnitude); the
/// zero vector, whose direction is undefined, rescales to zero.
pub open spec fn set_mag_spec(v: Vector2, len: int) -> Vector2 {
    let m: int = mag_spec(v);
    if m == 0 {
        Vector2 { x: 0, y: 0 }
    } else {
        Vector2 { x: ((v.x * len) / m) as i64, y: ((v.y * len) / m) as i64 }
    }
}

/// `pos` projected onto the circle of radius `d` around `anchor`,
/// keeping its direction from `anchor`.
pub open spec fn cd_spec(pos: Vector2, anchor: Vector2, d: int) -> Vector2 {
    v_add(anchor, set_mag_spec(v_sub(pos, anchor), d))
}

/// The heading of a vector: the angle of its point from the positive
/// x axis.
pub open spec fn heading_of(v: Vector2) -> int {
    atan2_spec(v.y as int, v.x as int)
}

/// Scaling a unit-bounded vector by a nonnegative factor keeps each
/// component within the factor.
pub proof fn lemma_scale_unit_bound(v: Vector2, s: int)
    requires
        in_range(v, ONE as int),
        0 <= s <= MAX_COORD,
    ensures
        in_range(v_scale(v, s), s),
{
    assert(-(s * (ONE as int)) <= (v.x as int) * s <= s * (ONE as int) && -(s * (ONE as int)) <= (
    v.y as int) * s <= s * (ONE as int)) by (nonlinear_arith)
        requires
            int_abs(v.x as int) <= ONE,
            int_abs(v.y as int) <= ONE,
            0 <= s,
    ;
    lemma_div_sym_bound((v.x as int) * s, s, ONE as int);
    lemma_div_sym_bound((v.y as int) * s, s, ONE as int);
}

/// Projection fixes points already on the circle: when `pos` lies at
/// exact distance `d` from `anchor` (its offset's squared magnitude is
/// `d * d`), `cd_spec` returns `pos` itself.
pub proof fn lemma_constrain_distance_exact(pos: Vector2, anchor: Vector2, d: int)
    requires
        in_range(pos, MAX_COORD as int),
        in_range(anchor, MAX_COORD as int),
        0 <= d <= MAX_COORD,
        mag_sq(v_sub(pos, anchor)) == d * d,
    ensures
        cd_spec(pos, anchor, d) == pos,
{
    let diff = v_sub(pos, anchor);
    assert(0 <= d * d && d * d < (d + 1) * (d + 1)) by (nonlinear_arith)
        requires
            0 <= d,
    ;
    crate::fixed::lemma_sqrt_floor_unique(d * d, d);
    assert(mag_spec(diff) == d);
    if d == 0 {
        assert(diff.x == 0 && diff.y == 0) by (nonlinear_arith)
            requires
                (diff.x as int) * (diff.x as int) + (diff.y as int) * (diff.y as int) == 0,
        ;
    } else {
        assert((diff.x as int) * d == d * (diff.x as int) && (diff.y as int) * d == d * (
        diff.y as int)) by (nonlinear_arith);
        vstd::arithmetic::div_mod::lemma_div_multiples_vanish(diff.x as int, d);
        vstd::arithmetic::div_mod::lemma_div_multiples_vanish(diff.y as int, d);
    }
}

/// The magnitude bounds each component: `|v.x| <= mag_spec(v)` and
/// likewise for `y`, since a square never exceeds a sum of squares.
pub proof fn lemma_mag_bounds_components(v: Vector2)
    requires
        in_range(v, VEC_RANGE as int),
    ensures
        0 <= mag_spec(v),
        int_abs(v.x as int) <= mag_spec(v),
        int_abs(v.y as int) <= mag_spec(v),
        mag_spec(v) <= 3_000_000_000,
{
    let m = mag_spec(v);
    assert(0 <= mag_sq(v)) by (nonlinear_arith);
    lemma_sqrt_floor_bounds(mag_sq(v));
    assert(int_abs(v.x as int) <= m) by (nonlinear_arith)
        requires
            0 <= m,
            mag_sq(v) == (v.x as int) * (v.x as int) + (v.y as int) * (v.y as int),
            mag_sq(v) < (m + 1) * (m + 1),
    ;
    assert(int_abs(v.y as int) <= m) by (nonlinear_arith)
        requires
            0 <= m,
            mag_sq(v) == (v.x as int) * (v.x as int) + (v.y as int) * (v.y as int),
            mag_sq(v) < (m + 1) * (m + 1),
    ;
    assert(mag_sq(v) <= 8_000_000_000_000_000_000) by (nonlinear_arith)
        requires
            int_abs(v.x as int) <= VEC_RANGE && int_abs(v.y as int) <= VEC_RANGE,
            mag_sq(v) == (v.x as int) * (v.x as int) + (v.y as int) * (v.y as int),
    ;
    assert(m <= 3_000_000_000) by (nonlinear_arith)
        requires
            0 <= m,
            m * m <= mag_sq(v),
            mag_sq(v) <= 8_000_000_000_000_000_000,
    ;
}

impl Vector2 {
    /// A vector from its two components.
    pub fn new(x: i64, y: i64) -> (r: Self)
        ensures
            r == (Vector2 { x, y }),
    {
        Vector2 { x, y }
    }

    /// The unit vector pointing along `angle`: fixed-point cosine and
    /// sine, each within one unit in magnitude.
    pub fn from_angle(angle: i64) -> (r: Self)
        ensures
            r == from_angle_spec(angle as int),
            in_range(r, ONE as int),
    {
        let s = simplify_angle(angle);
        let y = sin_core(s);
        let shifted: i64 = if s + HALF_PI >= TWO_PI {
            s + HALF_PI - TWO_PI
        } else {
            s + HALF_PI
        };
        let x = sin_core(shifted);
        proof {
            let t = TWO_PI as int;
            crate::angle::lemma_mod_shift(angle as int, HALF_PI as int);
            if s + HALF_PI >= TWO_PI {
                crate::angle::lemma_mod_drop_turns(s as int + HALF_PI, 1);
            }
            lemma_small_mod(shifted as nat, t as nat);
            lemma_small_mod(s as nat, t as nat);
        }
        Vector2 { x, y }
    }

    /// The heading angle from the positive x axis, in `[-PI, PI]`;
    /// zero for the zero vector.
    pub fn heading(&self) -> (r: i64)
        requires
            in_range(*self, VEC_RANGE as int),
        ensures
            r == atan2_spec(self.y as int, self.x as int),
            -PI <= r <= PI,
    {
        atan2_fix(self.y, self.x)
    }

    /// The magnitude, rounded down to the fixed-point grid.
    pub fn length(&self) -> (r: i64)
        requires
            in_range(*self, VEC_RANGE as int),
        ensures
            r == mag_spec(*self),
            0 <= r <= 3_000_000_000,
    {
        proof {
            assert(0 <= (self.x as int) * (self.x as int) <= 4_000_000_000_000_000_000 && 0 <= (
            self.y as int) * (self.y as int) <= 4_000_000_000_000_000_000) by (nonlinear_arith)
                requires
                    int_abs(self.x as int) <= VEC_RANGE,
                    int_abs(self.y as int) <= VEC_RANGE,
            ;
        }
        let xx: i64 = self.x * self.x;
        let yy: i64 = self.y * self.y;
        let s: i64 = xx + yy;
        let r: u64 = isqrt(s as u64);
        r as i64
    }

    /// The vector rescaled to magnitude `length`, component-wise
    /// exact; the zero vector stays zero. The result's components
    /// never exceed `length` in magnitude.
    pub fn set_mag(&self, length: i64) -> (r: Self)
        requires
            in_range(*self, VEC_RANGE as int),
            0 <= length <= MAX_COORD,
        ensures
            r == set_mag_spec(*self, length as int),
            in_range(r, length as int),
    {
        let m = self.length();
        proof {
            lemma_mag_bounds_components(*self);
        }
        if m == 0 {
            Vector2 { x: 0, y: 0 }
        } else {
            proof {
                assert(-((length as int) * (m as int)) <= (self.x as int) * (length as int) <= (
                length as int) * (m as int) && -((length as int) * (m as int)) <= (self.y as int) * (
                length as int) <= (length as int) * (m as int) && (length as int) * (m as int)
                    <= 4_000_000_000_000_000_000) by (nonlinear_arith)
                    requires
                        int_abs(self.x as int) <= m,
                        int_abs(self.y as int) <= m,
                        0 <= length <= MAX_COORD,
                        0 <= m <= 3_000_000_000,
                ;
                lemma_div_sym_bound((self.x as int) * (length as int), length as int, m as int);
                lemma_div_sym_bound((self.y as int) * (length as int), length as int, m as int);
            }
            let rx = div_floor(self.x * length, m);
            let ry = div_floor(self.y * length, m);
            Vector2 { x: rx, y: ry }
        }
    }

    /// Component-wise addition.
    pub fn add(self, other: Self) -> (r: Self)
        requires
            in_range(self, VEC_RANGE as int),
            in_range(other, VEC_RANGE as int),
        ensures
            r == v_add(self, other),
            r.x == self.x + other.x,
            r.y == self.y + other.y,
    {
        Vector2 { x: self.x + other.x, y: self.y + other.y }
    }

    /// Component-wise subtraction.
    pub fn sub(self, other: Self) -> (r: Self)
        requires
            in_range(self, VEC_RANGE as int),
            in_range(other, VEC_RANGE as int),
        ensures
            r == v_sub(self, other),
            r.x == self.x - other.x,
            r.y == self.y - other.y,
    {
        Vector2 { x: self.x - other.x, y: self.y - other.y }
    }

    /// Scaling by a fixed-point factor: each component is multiplied
    /// by `scalar` and floor-divided back to scale. A factor within
    /// one unit never grows the components.
    pub fn mul(self, scalar: i64) -> (r: Self)
        requires
            in_range(self, VEC_RANGE as int),
            int_abs(scalar as int) <= MAX_COORD,
        ensures
            r == v_scale(self, scalar as int),
    {
        proof {
            assert(-4_000_000_000_000_000_000 <= (self.x as int) * (scalar as int)
                <= 4_000_000_000_000_000_000 && -4_000_000_000_000_000_000 <= (self.y as int) * (
            scalar as int) <= 4_000_000_000_000_000_000) by (nonlinear_arith)
                requires
                    int_abs(self.x as int) <= VEC_RANGE,
                    int_abs(self.y as int) <= VEC_RANGE,
                    int_abs(scalar as int) <= MAX_COORD,
            ;
        }
        let rx = div_floor(self.x * scalar, ONE);
        let ry = div_floor(self.y * scalar, ONE);
        Vector2 { x: rx, y: ry }
    }
}

/// `pos` moved onto the circle of radius `constraint` around `anchor`,
/// along its current direction from `anchor`; each component of the
/// result stays within `constraint` of the anchor's.
pub fn constrain_distance(pos: Vector2, anchor: Vector2, constraint: i64) -> (r: Vector2)
    requires
        in_range(pos, MAX_COORD as int),
        in_range(anchor, MAX_COORD as int),
        0 <= constraint <= MAX_COORD,
    ensures
        r == cd_spec(pos, anchor, constraint as int),
        int_abs(r.x as int) <= int_abs(anchor.x as int) + constraint,
        int_abs(r.y as int) <= int_abs(anchor.y as int) + constraint,
{
    let offset = pos.sub(anchor).set_mag(constraint);
    anchor.add(offset)
}

} // verus!
