//! Fixed-point numeric base: scale constants, floor division and
//! integer square root, with exact contracts over `int` arithmetic.
//!
//! Every scalar of the library is an `i64` holding `ONE` times its
//! value, so one unit is split into ten thousand parts. Angles are
//! radians in the same scale; `PI` is the scaled half turn and all
//! angle identities are stated modulo `TWO_PI == 2 * PI`.

use vstd::arithmetic::div_mod::lemma_div_nonincreasing;
use vstd::arithmetic::div_mod::lemma_fundamental_div_mod;
use vstd::arithmetic::div_mod::lemma_fundamental_div_mod_converse;
use vstd::arithmetic::div_mod::lemma_mod_division_less_than_divisor;
use vstd::prelude::*;

verus! {

/// Number of fixed-point parts in one unit.
pub const ONE: i64 = 10_000;

/// Half turn (pi radians) in fixed-point parts.
pub const PI: i64 = 31_416;

/// Quarter turn in fixed-point parts, exactly `PI / 2`.
pub const HALF_PI: i64 = 15_708;

/// Eighth of a turn in fixed-point parts, exactly `PI / 4`.
pub const QUARTER_PI: i64 = 7_854;

/// Full turn in fixed-point parts, exactly `2 * PI`.
pub const TWO_PI: i64 = 62_832;

/// Largest coordinate magnitude a chain joint or contour point may hold.
pub const MAX_COORD: i64 = 1_000_000_000;

/// Largest component magnitude accepted by the vector operations; a
/// difference of two in-bound coordinates stays within it.
pub const VEC_RANGE: i64 = 2_000_000_000;

/// Magnitude bound under which `div_floor` is free of overflow.
pub const DIV_RANGE: i64 = 4_000_000_000_000_000_000;

/// Largest divisor `div_floor` accepts; an integer square root of a
/// sum of two squared in-bound components stays within it.
pub const DIVISOR_RANGE: i64 = 4_000_000_000;

/// Absolute value of a mathematical integer.
pub open spec fn int_abs(x: int) -> int {
    if x < 0 {
        -x
    } else {
        x
    }
}

/// Floor division of `a` by a positive `b`: exactly the `/` of
/// specification arithmetic, which rounds toward negative infinity
/// for a positive divisor.
pub fn div_floor(a: i64, b: i64) -> (r: i64)
    requires
        1 <= b <= DIVISOR_RANGE,
        -DIV_RANGE <= a <= DIV_RANGE,
    ensures
        r == a as int / b as int,
{
    if a >= 0 {
        let q: u64 = (a as u64) / (b as u64);
        proof {
            lemma_div_nonincreasing(a as int, b as int);
        }
        q as i64
    } else {
        let n: u64 = (-(a + 1)) as u64;
        let q: u64 = (n + (b as u64)) / (b as u64);
        proof {
            let bi = b as int;
            let nb = n as int + bi;
            lemma_fundamental_div_mod(nb, bi);
            lemma_mod_division_less_than_divisor(nb, bi);
            lemma_div_nonincreasing(nb, bi);
            let rem = bi - 1 - nb % bi;
            // a == -(n + 1) == (-q) * b + (b - 1 - (n + b) % b)
            assert(a as int == (-(q as int)) * bi + rem) by (nonlinear_arith)
                requires
                    a as int == -(nb - bi) - 1,
                    nb == bi * (q as int) + (nb % bi),
                    rem == bi - 1 - nb % bi,
            ;
            lemma_fundamental_div_mod_converse(a as int, bi, -(q as int), rem);
        }
        -(q as i64)
    }
}

/// A quotient with numerator bounded by `c` multiples of the divisor
/// is bounded by `c` in magnitude.
pub proof fn lemma_div_sym_bound(a: int, c: int, d: int)
    requires
        1 <= d,
        0 <= c,
        -(c * d) <= a <= c * d,
    ensures
        -c <= a / d <= c,
{
    vstd::arithmetic::div_mod::lemma_div_is_ordered(-(c * d), a, d);
    vstd::arithmetic::div_mod::lemma_div_is_ordered(a, c * d, d);
    vstd::arithmetic::div_mod::lemma_div_multiples_vanish(c, d);
    vstd::arithmetic::div_mod::lemma_div_multiples_vanish(-c, d);
    assert(d * c == c * d && d * (-c) == -(c * d)) by (nonlinear_arith);
}

/// The integer square root of `n`: the largest integer whose square
/// does not exceed `n` (zero for negative `n`).
pub open spec fn sqrt_floor(n: int) -> int
    decreases n,
{
    if n < 1 {
        0
    } else {
        let s = sqrt_floor(n - 1);
        if (s + 1) * (s + 1) <= n {
            s + 1
        } else {
            s
        }
    }
}

/// `sqrt_floor(n)` is the unique nonnegative root: its square is at
/// most `n` and the next square is beyond `n`.
pub proof fn lemma_sqrt_floor_bounds(n: int)
    requires
        0 <= n,
    ensures
        0 <= sqrt_floor(n),
        sqrt_floor(n) * sqrt_floor(n) <= n,
        n < (sqrt_floor(n) + 1) * (sqrt_floor(n) + 1),
    decreases n,
{
    if n < 1 {
    } else {
        lemma_sqrt_floor_bounds(n - 1);
        let s = sqrt_floor(n - 1);
        if (s + 1) * (s + 1) <= n {
            assert(n < (s + 2) * (s + 2)) by (nonlinear_arith)
                requires
                    0 <= s,
                    n - 1 < (s + 1) * (s + 1),
            ;
        }
    }
}

/// Any nonnegative `r` with `r * r <= n < (r + 1) * (r + 1)` is
/// `sqrt_floor(n)`.
pub proof fn lemma_sqrt_floor_unique(n: int, r: int)
    requires
        0 <= n,
        0 <= r,
        r * r <= n,
        n < (r + 1) * (r + 1),
    ensures
        r == sqrt_floor(n),
{
    lemma_sqrt_floor_bounds(n);
    let s = sqrt_floor(n);
    if r < s {
        assert((r + 1) * (r + 1) <= s * s) by (nonlinear_arith)
            requires
                0 <= r,
                r + 1 <= s,
        ;
    }
    if s < r {
        assert((s + 1) * (s + 1) <= r * r) by (nonlinear_arith)
            requires
                0 <= s,
                s + 1 <= r,
        ;
    }
}

/// Executable integer square root by bisection.
pub fn isqrt(n: u64) -> (r: u64)
    requires
        n <= 8_000_000_000_000_000_000,
    ensures
        r == sqrt_floor(n as int),
        r <= 3_000_000_000,
{
    let mut lo: u64 = 0;
    let mut hi: u64 = 3_000_000_000;
    assert(3_000_000_000u64 * 3_000_000_000u64 == 9_000_000_000_000_000_000);
    while lo + 1 < hi
        invariant
            lo < hi <= 3_000_000_000,
            lo * lo <= n,
            n < hi * hi,
        decreases hi - lo,
    {
        let mid = lo + (hi - lo) / 2;
        assert(lo < mid < hi);
        assert(mid * mid <= 3_000_000_000u64 * 3_000_000_000u64) by (nonlinear_arith)
            requires
                0 <= mid <= 3_000_000_000u64,
        ;
        if mid * mid <= n {
            lo = mid;
        } else {
            hi = mid;
        }
    }
    proof {
        lemma_sqrt_floor_unique(n as int, lo as int);
    }
    lo
}

} // verus!
