//! Fixed-point sine and cosine.
//!
//! Angles are millionths of a radian. A quarter turn is [`QUARTER_TURN`]
//! units; every angle is first folded into the first eighth of a turn, where
//! the sine is a truncated power series and the cosine is the integer square
//! root that completes it to a unit vector.

use vstd::prelude::*;
use crate::physics::vector::ONE;

verus! {

/// A quarter turn, `π/2`, in millionths of a radian.
pub const QUARTER_TURN: i64 = 1_570_796;

/// Half a turn: two quarter turns.
pub const HALF_TURN: i64 = 3_141_592;

/// A full turn: four quarter turns.
pub const FULL_TURN: i64 = 6_283_184;

/// Half a quarter turn; the power series is only evaluated up to here.
pub const EIGHTH_TURN: i64 = 785_398;

/// `ONE * ONE`, the scale of the intermediate terms of the power series.
pub const ONE_SQUARED: i128 = 1_000_000_000_000;

/// `r` is the integer square root of `n`, rounded down.
pub open spec fn is_floor_sqrt(n: int, r: int) -> bool {
    0 <= r && r * r <= n < (r + 1) * (r + 1)
}

/// The integer square root of `n`, rounded down.
pub open spec fn floor_sqrt(n: int) -> int {
    choose|r: int| is_floor_sqrt(n, r)
}

/// Sine of `x` for `0 <= x <= EIGHTH_TURN`, scaled by `ONE`: the series
/// `x - x^3/3! + x^5/5! - x^7/7! + x^9/9!` with twelve decimals, each term
/// rounded down, the sum rounded to the nearest millionth.
pub open spec fn sin_octant(x: int) -> int {
    let xp = x * ONE;
    let x2 = x * x;
    let t3 = xp * x2 / (ONE_SQUARED as int) / 6;
    let t5 = t3 * x2 / (ONE_SQUARED as int) / 20;
    let t7 = t5 * x2 / (ONE_SQUARED as int) / 42;
    let t9 = t7 * x2 / (ONE_SQUARED as int) / 72;
    (xp - t3 + t5 - t7 + t9 + ONE / 2) / (ONE as int)
}

/// Cosine of `x` for `0 <= x <= EIGHTH_TURN`, scaled by `ONE`: the largest
/// integer whose square, added to the square of the sine, does not exceed
/// `ONE * ONE`.
pub open spec fn cos_octant(x: int) -> int {
    floor_sqrt(ONE_SQUARED - sin_octant(x) * sin_octant(x))
}

/// `(cos, sin)` of `x` for `0 <= x < QUARTER_TURN`.
pub open spec fn cos_sin_quadrant(x: int) -> (int, int) {
    if x <= EIGHTH_TURN {
        (cos_octant(x), sin_octant(x))
    } else {
        (sin_octant(QUARTER_TURN - x), cos_octant(QUARTER_TURN - x))
    }
}

/// `(c, s)` turned by `quarters` quarter turns counter-clockwise.
pub open spec fn turn_quarters(quarters: int, c: int, s: int) -> (int, int) {
    if quarters == 0 {
        (c, s)
    } else if quarters == 1 {
        (-s, c)
    } else if quarters == 2 {
        (-c, -s)
    } else {
        (s, -c)
    }
}

/// `(cos, sin)` of a non-negative angle: the angle is reduced modulo a full
/// turn, split into whole quarter turns and a remainder.
pub open spec fn cos_sin_nonneg(angle: int) -> (int, int) {
    let r = angle % (FULL_TURN as int);
    let (c, s) = cos_sin_quadrant(r % (QUARTER_TURN as int));
    turn_quarters(r / (QUARTER_TURN as int), c, s)
}

/// `(cos, sin)` of any angle, scaled by `ONE`. Cosine is even and sine is odd
/// by definition.
pub open spec fn cos_sin(angle: int) -> (int, int) {
    if angle < 0 {
        let (c, s) = cos_sin_nonneg(-angle);
        (c, -s)
    } else {
        cos_sin_nonneg(angle)
    }
}

/// The integer square root is unique.
pub proof fn lemma_floor_sqrt_unique(n: int, r: int)
    requires
        is_floor_sqrt(n, r),
    ensures
        floor_sqrt(n) == r,
{
    let c = floor_sqrt(n);
    assert(is_floor_sqrt(n, c));
    assert(c == r) by (nonlinear_arith)
        requires
            0 <= r,
            r * r <= n < (r + 1) * (r + 1),
            0 <= c,
            c * c <= n < (c + 1) * (c + 1),
    ;
}

/// In the first eighth of a turn the sine lies in `[0, ONE)`.
pub proof fn lemma_sin_octant_range(x: int)
    requires
        0 <= x <= EIGHTH_TURN,
    ensures
        0 <= sin_octant(x) < ONE,
        x == 0 ==> sin_octant(x) == 0,
{
    let p = ONE_SQUARED as int;
    let xp = x * ONE;
    let x2 = x * x;
    assert(0 <= x2 <= 616_850_018_404) by (nonlinear_arith)
        requires
            0 <= x <= 785_398,
            x2 == x * x,
    ;
    let t3 = xp * x2 / p / 6;
    let t5 = t3 * x2 / p / 20;
    let t7 = t5 * x2 / p / 42;
    let t9 = t7 * x2 / p / 72;
    assert(0 <= xp * x2 <= xp * 616_850_018_404) by (nonlinear_arith)
        requires
            0 <= xp,
            0 <= x2 <= 616_850_018_404,
    ;
    assert(0 <= t3 <= xp);
    assert(0 <= t3 * x2 <= t3 * 616_850_018_404) by (nonlinear_arith)
        requires
            0 <= t3,
            0 <= x2 <= 616_850_018_404,
    ;
    assert(0 <= t5 <= t3);
    assert(0 <= t5 * x2 <= t5 * 616_850_018_404) by (nonlinear_arith)
        requires
            0 <= t5,
            0 <= x2 <= 616_850_018_404,
    ;
    assert(0 <= t7 <= t5);
    assert(0 <= t7 * x2 <= t7 * 616_850_018_404) by (nonlinear_arith)
        requires
            0 <= t7,
            0 <= x2 <= 616_850_018_404,
    ;
    assert(0 <= t9 <= t7);
    if x == 0 {
        assert(x2 == 0) by (nonlinear_arith)
            requires
                x == 0,
                x2 == x * x,
        ;
        assert(xp * x2 == 0) by (nonlinear_arith)
            requires
                x2 == 0,
        ;
        assert(t3 * x2 == 0 && t5 * x2 == 0 && t7 * x2 == 0) by (nonlinear_arith)
            requires
                x2 == 0,
        ;
    }
}


/// The octant cosine exists, lies in `(0, ONE]` and completes the sine to a
/// vector whose squared length falls short of `ONE * ONE` by at most `2 * ONE`.
pub proof fn lemma_cos_octant_range(x: int)
    requires
        0 <= x <= EIGHTH_TURN,
    ensures
        is_floor_sqrt(ONE_SQUARED - sin_octant(x) * sin_octant(x), cos_octant(x)),
        0 < cos_octant(x) <= ONE,
        x == 0 ==> cos_octant(x) == ONE,
{
    let s = sin_octant(x);
    lemma_sin_octant_range(x);
    let n = ONE_SQUARED - s * s;
    assert(0 < n <= 1_000_000_000_000) by (nonlinear_arith)
        requires
            0 <= s < 1_000_000,
            n == 1_000_000_000_000 - s * s,
    ;
    lemma_floor_sqrt_exists(n);
    let c = floor_sqrt(n);
    assert(0 < c <= 1_000_000) by (nonlinear_arith)
        requires
            0 <= c,
            c * c <= n < (c + 1) * (c + 1),
            0 < n <= 1_000_000_000_000,
    ;
    if x == 0 {
        assert(s * s == 0) by (nonlinear_arith)
            requires
                s == 0,
        ;
        assert(is_floor_sqrt(n, 1_000_000)) by (nonlinear_arith)
            requires
                n == 1_000_000_000_000,
        ;
        lemma_floor_sqrt_unique(n, 1_000_000);
    }
}

/// Every non-negative integer has an integer square root.
pub proof fn lemma_floor_sqrt_exists(n: int)
    requires
        0 <= n,
    ensures
        is_floor_sqrt(n, floor_sqrt(n)),
    decreases n,
{
    if n == 0 {
        assert(is_floor_sqrt(0, 0));
    } else {
        lemma_floor_sqrt_exists(n - 1);
        let r = floor_sqrt(n - 1);
        if (r + 1) * (r + 1) <= n {
            assert(is_floor_sqrt(n, r + 1)) by (nonlinear_arith)
                requires
                    0 <= r,
                    r * r <= n - 1 < (r + 1) * (r + 1),
                    (r + 1) * (r + 1) <= n,
            ;
        } else {
            assert(is_floor_sqrt(n, r));
        }
    }
}

/// `(c, s)` is a vector no longer than `ONE` whose squared length falls
/// short of `ONE * ONE` by at most `2 * ONE`.
pub open spec fn is_unit_like(c: int, s: int) -> bool {
    &&& -ONE <= c <= ONE
    &&& -ONE <= s <= ONE
    &&& ONE_SQUARED - 2 * ONE <= c * c + s * s <= ONE_SQUARED
}

/// In the first quarter turn cosine and sine are non-negative and form an
/// almost unit vector; at angle zero they are exactly `(ONE, 0)`.
pub proof fn lemma_cos_sin_quadrant(x: int)
    requires
        0 <= x < QUARTER_TURN,
    ensures
        ({
            let (c, s) = cos_sin_quadrant(x);
            &&& is_unit_like(c, s)
            &&& 0 <= c
            &&& 0 <= s
            &&& x == 0 ==> c == ONE && s == 0
        }),
{
    let y = if x <= EIGHTH_TURN { x } else { QUARTER_TURN - x };
    lemma_sin_octant_range(y);
    lemma_cos_octant_range(y);
    let s = sin_octant(y);
    let c = cos_octant(y);
    assert(1_000_000_000_000 - 2 * 1_000_000 <= c * c + s * s <= 1_000_000_000_000
        && c * c + s * s == s * s + c * c) by (nonlinear_arith)
        requires
            0 < c <= 1_000_000,
            c * c <= 1_000_000_000_000 - s * s < (c + 1) * (c + 1),
    ;
}

/// `(cos, sin)` of any angle is a vector of length at most `ONE` and almost
/// exactly `ONE`; at angle zero it is exactly `(ONE, 0)`.
pub proof fn lemma_cos_sin(angle: int)
    ensures
        is_unit_like(cos_sin(angle).0, cos_sin(angle).1),
        angle == 0 ==> cos_sin(angle) == (ONE as int, 0int),
        cos_sin(-angle) == (cos_sin(angle).0, -cos_sin(angle).1),
{
    let a = if angle < 0 { -angle } else { angle };
    let r = a % (FULL_TURN as int);
    let x = r % (QUARTER_TURN as int);
    let q = r / (QUARTER_TURN as int);
    lemma_cos_sin_quadrant(x);
    let (c, s) = cos_sin_quadrant(x);
    assert((-c) * (-c) == c * c && (-s) * (-s) == s * s && s * s + c * c == c * c + s * s)
        by (nonlinear_arith);
}

/// The integer square root of `n`, rounded down, by bisection.
fn floor_sqrt_exec(n: i128) -> (r: i128)
    requires
        0 <= n <= ONE_SQUARED,
    ensures
        r == floor_sqrt(n as int),
        0 <= r <= ONE,
{
    let mut lo: i128 = 0;
    let mut hi: i128 = 1_000_001;
    assert(n < hi * hi) by (nonlinear_arith)
        requires
            n <= 1_000_000_000_000,
            hi == 1_000_001,
    ;
    while hi - lo > 1
        invariant
            0 <= lo < hi <= 1_000_001,
            lo * lo <= n < hi * hi,
        decreases hi - lo,
    {
        let mid: i128 = lo + (hi - lo) / 2;
        assert(0 <= mid * mid <= 1_000_001 * 1_000_001) by (nonlinear_arith)
            requires
                0 <= mid <= 1_000_001,
        ;
        if mid * mid <= n {
            lo = mid;
        } else {
            hi = mid;
        }
    }
    proof {
        assert(hi == lo + 1);
        lemma_floor_sqrt_unique(n as int, lo as int);
    }
    lo
}

/// Sine in the first eighth of a turn.
fn sin_octant_exec(x: i128) -> (s: i128)
    requires
        0 <= x <= EIGHTH_TURN,
    ensures
        s == sin_octant(x as int),
        0 <= s < ONE,
{
    let one: i128 = ONE as i128;
    let xp: i128 = x * one;
    assert(0 <= x * x <= 616_850_018_404) by (nonlinear_arith)
        requires
            0 <= x <= 785_398,
    ;
    let x2: i128 = x * x;
    proof {
        lemma_sin_octant_range(x as int);
        assert(0 <= xp * x2 <= 785_398_000_000 * 616_850_018_404) by (nonlinear_arith)
            requires
                0 <= xp <= 785_398_000_000,
                0 <= x2 <= 616_850_018_404,
        ;
    }
    let t3: i128 = xp * x2 / ONE_SQUARED / 6;
    proof {
        assert(0 <= t3 * x2 <= 785_398_000_000 * 616_850_018_404) by (nonlinear_arith)
            requires
                0 <= t3 <= 785_398_000_000,
                0 <= x2 <= 616_850_018_404,
        ;
    }
    let t5: i128 = t3 * x2 / ONE_SQUARED / 20;
    proof {
        assert(0 <= t5 * x2 <= 785_398_000_000 * 616_850_018_404) by (nonlinear_arith)
            requires
                0 <= t5 <= 785_398_000_000,
                0 <= x2 <= 616_850_018_404,
        ;
    }
    let t7: i128 = t5 * x2 / ONE_SQUARED / 42;
    proof {
        assert(0 <= t7 * x2 <= 785_398_000_000 * 616_850_018_404) by (nonlinear_arith)
            requires
                0 <= t7 <= 785_398_000_000,
                0 <= x2 <= 616_850_018_404,
        ;
    }
    let t9: i128 = t7 * x2 / ONE_SQUARED / 72;
    (xp - t3 + t5 - t7 + t9 + one / 2) / one
}

/// `(cos, sin)` in the first quarter turn.
fn cos_sin_quadrant_exec(x: i128) -> (r: (i128, i128))
    requires
        0 <= x < QUARTER_TURN,
    ensures
        (r.0 as int, r.1 as int) == cos_sin_quadrant(x as int),
        0 <= r.0 <= ONE,
        0 <= r.1 <= ONE,
{
    let y: i128 = if x <= EIGHTH_TURN as i128 { x } else { QUARTER_TURN as i128 - x };
    let s: i128 = sin_octant_exec(y);
    assert(0 <= s * s < 1_000_000_000_000) by (nonlinear_arith)
        requires
            0 <= s < 1_000_000,
    ;
    let c: i128 = floor_sqrt_exec(ONE_SQUARED - s * s);
    if x <= EIGHTH_TURN as i128 {
        (c, s)
    } else {
        (s, c)
    }
}

/// Cosine and sine of `angle`, in this order, each scaled by `ONE`.
pub fn cos_sin_of(angle: i64) -> (r: (i64, i64))
    ensures
        (r.0 as int, r.1 as int) == cos_sin(angle as int),
        -ONE <= r.0 <= ONE,
        -ONE <= r.1 <= ONE,
{
    let negative: bool = angle < 0;
    let a: i128 = if negative { -(angle as i128) } else { angle as i128 };
    let r: i128 = a % (FULL_TURN as i128);
    let q: i128 = r / (QUARTER_TURN as i128);
    let (c, s) = cos_sin_quadrant_exec(r % (QUARTER_TURN as i128));
    let (c, s): (i128, i128) = if q == 0 {
        (c, s)
    } else if q == 1 {
        (-s, c)
    } else if q == 2 {
        (-c, -s)
    } else {
        (s, -c)
    };
    if negative {
        (c as i64, (-s) as i64)
    } else {
        (c as i64, s as i64)
    }
}

} // verus!
