//! Fixed-point scalars and two-dimensional vectors.

use vstd::prelude::*;

verus! {

/// The fixed-point representation of `1.0`: scalars count millionths.
pub const ONE: i64 = 1_000_000;

/// Largest magnitude of any coordinate, extent or angle the geometry computes with.
pub const COORD_MAX: i64 = 0x1000_0000_0000_0000;

/// Largest magnitude of a coordinate or extent that an entity may hand to the engine.
pub const WORLD_MAX: i64 = 0x0100_0000_0000_0000;

/// `v` limited to the interval `[-WORLD_MAX, WORLD_MAX]`.
pub open spec fn clamp_world(v: int) -> int {
    if v < -WORLD_MAX {
        -WORLD_MAX as int
    } else if v > WORLD_MAX {
        WORLD_MAX as int
    } else {
        v
    }
}

/// Quotient of `a` by a positive `b`, rounded toward zero.
pub open spec fn div_toward_zero(a: int, b: int) -> int
    recommends
        b > 0,
{
    if a >= 0 {
        a / b
    } else {
        -((-a) / b)
    }
}

/// A point or displacement in fixed-point coordinates.
#[derive(Clone, Copy, Debug, PartialEq, Eq, Structural)]
pub struct Vec2 {
    pub x: i64,
    pub y: i64,
}

impl View for Vec2 {
    type V = (int, int);

    /// The vector over the unbounded integers.
    open spec fn view(&self) -> (int, int) {
        (self.x as int, self.y as int)
    }
}

impl Vec2 {
    /// Both components lie in `[-bound, bound]`.
    pub open spec fn within(self, bound: int) -> bool {
        &&& -bound <= self.x <= bound
        &&& -bound <= self.y <= bound
    }

    /// Both components lie in `[0, bound]`.
    pub open spec fn extent_within(self, bound: int) -> bool {
        &&& 0 <= self.x <= bound
        &&& 0 <= self.y <= bound
    }

    /// The vector with the given components.
    pub fn new(x: i64, y: i64) -> (v: Vec2)
        ensures
            v.x == x,
            v.y == y,
    {
        Vec2 { x, y }
    }

    /// The vector without length.
    pub fn zeros() -> (v: Vec2)
        ensures
            v.x == 0,
            v.y == 0,
    {
        Vec2 { x: 0, y: 0 }
    }

    /// Component-wise sum.
    pub fn plus(self, other: Vec2) -> (v: Vec2)
        requires
            i64::MIN <= self.x + other.x <= i64::MAX,
            i64::MIN <= self.y + other.y <= i64::MAX,
        ensures
            v.x == self.x + other.x,
            v.y == self.y + other.y,
    {
        Vec2 { x: self.x + other.x, y: self.y + other.y }
    }

    /// Component-wise difference.
    pub fn minus(self, other: Vec2) -> (v: Vec2)
        requires
            i64::MIN <= self.x - other.x <= i64::MAX,
            i64::MIN <= self.y - other.y <= i64::MAX,
        ensures
            v.x == self.x - other.x,
            v.y == self.y - other.y,
    {
        Vec2 { x: self.x - other.x, y: self.y - other.y }
    }

    /// Component-wise sum, each component limited to the world's extent.
    pub open spec fn clamped_sum(self, other: Vec2) -> Vec2 {
        Vec2 {
            x: clamp_world(self.x + other.x) as i64,
            y: clamp_world(self.y + other.y) as i64,
        }
    }

    /// Component-wise sum, each component limited to the world's extent.
    pub fn plus_clamped(self, other: Vec2) -> (v: Vec2)
        ensures
            v == self.clamped_sum(other),
            v.x == clamp_world(self.x + other.x),
            v.y == clamp_world(self.y + other.y),
            v.within(WORLD_MAX as int),
    {
        Vec2 { x: clamp_sum(self.x, other.x), y: clamp_sum(self.y, other.y) }
    }
}

/// `a + b` limited to the world's extent.
fn clamp_sum(a: i64, b: i64) -> (r: i64)
    ensures
        r == clamp_world(a + b),
{
    let wide: i128 = a as i128 + b as i128;
    if wide < -(WORLD_MAX as i128) {
        -WORLD_MAX
    } else if wide > WORLD_MAX as i128 {
        WORLD_MAX
    } else {
        wide as i64
    }
}

} // verus!
