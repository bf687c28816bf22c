//! Oriented bounding boxes and the separating-axis test between two of them.

use vstd::prelude::*;
use crate::physics::trig::{cos_sin, cos_sin_of, lemma_cos_sin};
use crate::physics::vector::{div_toward_zero, Vec2, COORD_MAX, ONE, WORLD_MAX};

verus! {

/// An angle in millionths of a radian, counter-clockwise.
pub type Radians = i64;

/// Two orientations closer than this many millionths of a radian count as
/// equal. With the value 1 only identical orientations do.
pub const ORI_EPSILON: i64 = 1;

/// Why a box was refused at construction.
#[derive(Clone, Copy, Debug, PartialEq, Eq, Structural)]
pub enum GeometryError {
    /// The width or the height is negative.
    NegativeSize,
    /// A coordinate, an extent or the orientation exceeds `WORLD_MAX` in magnitude.
    OutOfWorld,
}

/// An oriented rectangle. Its base rectangle spans `(0, 0)` to `size`; it is
/// rotated by `ori` about the origin and then moved by `pos`.
#[derive(Clone, Copy, Debug, PartialEq, Eq, Structural)]
pub struct BoundingBox {
    /// Where the rotated box's first corner lies.
    pub pos: Vec2,
    /// Width and height; both non-negative.
    pub size: Vec2,
    /// Counter-clockwise rotation.
    pub ori: Radians,
}

/// A box over the unbounded integers: what a [`BoundingBox`] stands for.
pub struct BoxModel {
    pub pos: (int, int),
    pub size: (int, int),
    pub ori: int,
}

impl View for BoundingBox {
    type V = BoxModel;

    open spec fn view(&self) -> BoxModel {
        BoxModel { pos: self.pos@, size: self.size@, ori: self.ori as int }
    }
}

/// `point` rotated counter-clockwise by `ori` about the origin:
/// `(x·cos − y·sin, x·sin + y·cos)`, each coordinate rounded toward zero.
pub open spec fn rotated(point: (int, int), ori: int) -> (int, int) {
    let (c, s) = cos_sin(ori);
    (
        div_toward_zero(c * point.0 - s * point.1, ONE as int),
        div_toward_zero(s * point.0 + c * point.1, ONE as int),
    )
}

pub open spec fn min2(a: int, b: int) -> int {
    if a <= b {
        a
    } else {
        b
    }
}

pub open spec fn max2(a: int, b: int) -> int {
    if a >= b {
        a
    } else {
        b
    }
}

/// The closed intervals `[lo, hi]` and `[0, extent]` share a point.
pub open spec fn overlaps_extent(lo: int, hi: int, extent: int) -> bool {
    max2(lo, 0) <= min2(hi, extent)
}

impl BoxModel {
    /// Width and height are non-negative.
    pub open spec fn valid(self) -> bool {
        0 <= self.size.0 && 0 <= self.size.1
    }

    /// Corner `i` of the base rectangle, before rotation and translation.
    pub open spec fn base_corner(self, i: int) -> (int, int) {
        if i == 0 {
            (0, 0)
        } else if i == 1 {
            (0, self.size.1)
        } else if i == 2 {
            (self.size.0, 0)
        } else {
            (self.size.0, self.size.1)
        }
    }

    /// Corner `i` in the frame the box is placed in.
    pub open spec fn corner(self, i: int) -> (int, int) {
        let r = rotated(self.base_corner(i), self.ori);
        (r.0 + self.pos.0, r.1 + self.pos.1)
    }

    pub open spec fn min_x(self) -> int {
        min2(min2(self.corner(0).0, self.corner(1).0), min2(self.corner(2).0, self.corner(3).0))
    }

    pub open spec fn max_x(self) -> int {
        max2(max2(self.corner(0).0, self.corner(1).0), max2(self.corner(2).0, self.corner(3).0))
    }

    pub open spec fn min_y(self) -> int {
        min2(min2(self.corner(0).1, self.corner(1).1), min2(self.corner(2).1, self.corner(3).1))
    }

    pub open spec fn max_y(self) -> int {
        max2(max2(self.corner(0).1, self.corner(1).1), max2(self.corner(2).1, self.corner(3).1))
    }

    /// The box seen from `basis`: moved by the difference of the positions,
    /// turned back by the orientation of `basis`, orientations subtracted.
    pub open spec fn normalized_wrt(self, basis: BoxModel) -> BoxModel {
        BoxModel {
            pos: rotated((self.pos.0 - basis.pos.0, self.pos.1 - basis.pos.1), -basis.ori),
            size: self.size,
            ori: self.ori - basis.ori,
        }
    }

    /// Seen from `basis`, the box's extent along each axis of `basis` meets
    /// the extent of `basis` itself, which is `[0, width]` and `[0, height]`.
    pub open spec fn half_collides(self, basis: BoxModel) -> bool {
        let n = self.normalized_wrt(basis);
        &&& overlaps_extent(n.min_x(), n.max_x(), basis.size.0)
        &&& overlaps_extent(n.min_y(), n.max_y(), basis.size.1)
    }

    /// The orientations differ by less than `ORI_EPSILON`.
    pub open spec fn almost_aligned(self, other: BoxModel) -> bool {
        -ORI_EPSILON < other.ori - self.ori < ORI_EPSILON
    }

    /// The two boxes overlap: no axis of either box separates them. Between
    /// boxes of equal orientation one half-check decides.
    pub open spec fn collides(self, other: BoxModel) -> bool {
        self.half_collides(other) && (self.almost_aligned(other) || other.half_collides(self))
    }
}

impl BoundingBox {
    /// The box is one the geometry can compute with.
    pub open spec fn wf(&self) -> bool {
        &&& self.pos.within(COORD_MAX as int)
        &&& self.size.extent_within(COORD_MAX as int)
        &&& -COORD_MAX <= self.ori <= COORD_MAX
    }

    /// The box is one an entity may carry.
    pub open spec fn in_world(&self) -> bool {
        &&& self.pos.within(WORLD_MAX as int)
        &&& self.size.extent_within(WORLD_MAX as int)
        &&& -WORLD_MAX <= self.ori <= WORLD_MAX
    }

    /// The two boxes are close enough, in place and in orientation, for one
    /// to be expressed in the frame of the other.
    pub open spec fn comparable(&self, other: &BoundingBox) -> bool {
        &&& -(COORD_MAX / 2) <= self.pos.x - other.pos.x <= COORD_MAX / 2
        &&& -(COORD_MAX / 2) <= self.pos.y - other.pos.y <= COORD_MAX / 2
        &&& -COORD_MAX <= self.ori - other.ori <= COORD_MAX
    }

    /// Builds a box, refusing what no entity may carry.
    pub fn new(pos: Vec2, size: Vec2, ori: Radians) -> (r: Result<BoundingBox, GeometryError>)
        ensures
            r is Ok <==> (BoundingBox { pos, size, ori }).in_world(),
            r is Ok ==> r->Ok_0 == (BoundingBox { pos, size, ori }),
            r == Err::<BoundingBox, GeometryError>(GeometryError::NegativeSize) <==> (size.x < 0
                || size.y < 0),
    {
        if size.x < 0 || size.y < 0 {
            Err(GeometryError::NegativeSize)
        } else if pos.x < -WORLD_MAX || pos.x > WORLD_MAX || pos.y < -WORLD_MAX || pos.y
            > WORLD_MAX || size.x > WORLD_MAX || size.y > WORLD_MAX || ori < -WORLD_MAX || ori
            > WORLD_MAX {
            Err(GeometryError::OutOfWorld)
        } else {
            Ok(BoundingBox { pos, size, ori })
        }
    }

    /// Rotates a point counter-clockwise about the origin.
    pub fn rotate(point: Vec2, ori: Radians) -> (r: Vec2)
        requires
            point.within(2 * COORD_MAX),
        ensures
            r@ == rotated(point@, ori as int),
    {
        let (c, s) = cos_sin_of(ori);
        let x: i128 = point.x as i128;
        let y: i128 = point.y as i128;
        let c: i128 = c as i128;
        let s: i128 = s as i128;
        proof {
            lemma_rotated_bound(point@, ori as int);
        }
        assert(-1_000_000 * 0x2000_0000_0000_0000 <= c * x <= 1_000_000 * 0x2000_0000_0000_0000
            && -1_000_000 * 0x2000_0000_0000_0000 <= s * y <= 1_000_000 * 0x2000_0000_0000_0000
            && -1_000_000 * 0x2000_0000_0000_0000 <= s * x <= 1_000_000 * 0x2000_0000_0000_0000
            && -1_000_000 * 0x2000_0000_0000_0000 <= c * y <= 1_000_000 * 0x2000_0000_0000_0000)
            by (nonlinear_arith)
            requires
                -1_000_000 <= c <= 1_000_000,
                -1_000_000 <= s <= 1_000_000,
                -0x2000_0000_0000_0000 <= x <= 0x2000_0000_0000_0000,
                -0x2000_0000_0000_0000 <= y <= 0x2000_0000_0000_0000,
        ;
        let rx: i128 = (c * x - s * y) / (ONE as i128);
        let ry: i128 = (s * x + c * y) / (ONE as i128);
        Vec2 { x: rx as i64, y: ry as i64 }
    }

    /// The four corners of the base rectangle: origin, top, right, far corner.
    pub fn base_corners(&self) -> (r: [Vec2; 4])
        ensures
            forall|i: int| 0 <= i < 4 ==> (#[trigger] r[i])@ == self@.base_corner(i),
    {
        [
            Vec2 { x: 0, y: 0 },
            Vec2 { x: 0, y: self.size.y },
            Vec2 { x: self.size.x, y: 0 },
            Vec2 { x: self.size.x, y: self.size.y },
        ]
    }

    /// The matrix `[[cos, -sin], [sin, cos]]` of the box's orientation, by rows.
    pub fn rot_matrix(&self) -> (r: [[i64; 2]; 2])
        ensures
            r[0][0] == cos_sin(self.ori as int).0,
            r[0][1] == -cos_sin(self.ori as int).1,
            r[1][0] == cos_sin(self.ori as int).1,
            r[1][1] == cos_sin(self.ori as int).0,
    {
        let (c, s) = cos_sin_of(self.ori);
        [[c, -s], [s, c]]
    }

    /// The four corners of the box where it stands.
    pub fn corners(&self) -> (r: [Vec2; 4])
        requires
            self.wf(),
        ensures
            forall|i: int| 0 <= i < 4 ==> (#[trigger] r[i])@ == self@.corner(i),
    {
        let base = self.base_corners();
        proof {
            lemma_rotated_bound(base[0]@, self.ori as int);
            lemma_rotated_bound(base[1]@, self.ori as int);
            lemma_rotated_bound(base[2]@, self.ori as int);
            lemma_rotated_bound(base[3]@, self.ori as int);
        }
        [
            Self::rotate(base[0], self.ori).plus(self.pos),
            Self::rotate(base[1], self.ori).plus(self.pos),
            Self::rotate(base[2], self.ori).plus(self.pos),
            Self::rotate(base[3], self.ori).plus(self.pos),
        ]
    }

    /// The extent of the box along each axis: `[[min x, max x], [min y, max y]]`.
    pub fn bounds(&self) -> (r: [[i64; 2]; 2])
        requires
            self.wf(),
        ensures
            r[0][0] == self@.min_x(),
            r[0][1] == self@.max_x(),
            r[1][0] == self@.min_y(),
            r[1][1] == self@.max_y(),
    {
        let c = self.corners();
        [
            [
                min_of(min_of(c[0].x, c[1].x), min_of(c[2].x, c[3].x)),
                max_of(max_of(c[0].x, c[1].x), max_of(c[2].x, c[3].x)),
            ],
            [
                min_of(min_of(c[0].y, c[1].y), min_of(c[2].y, c[3].y)),
                max_of(max_of(c[0].y, c[1].y), max_of(c[2].y, c[3].y)),
            ],
        ]
    }

    /// The box seen from `basis`.
    pub fn normalized_wrt(&self, basis: &BoundingBox) -> (r: BoundingBox)
        requires
            self.wf(),
            basis.wf(),
            self.comparable(basis),
        ensures
            r@ == self@.normalized_wrt(basis@),
            r.wf(),
    {
        let diff = self.pos.minus(basis.pos);
        proof {
            lemma_rotated_bound(diff@, -basis.ori as int);
        }
        BoundingBox {
            pos: Self::rotate(diff, -basis.ori),
            size: self.size,
            ori: self.ori - basis.ori,
        }
    }

    /// Whether the box, seen from `basis`, meets the extent of `basis` along
    /// both axes of `basis`. A full check takes this test in both directions.
    pub fn check_half_collision(&self, basis: &BoundingBox) -> (r: bool)
        requires
            self.wf(),
            basis.wf(),
            self.comparable(basis),
        ensures
            r == self@.half_collides(basis@),
    {
        let seen = self.normalized_wrt(basis);
        let b = seen.bounds();
        max_of(b[0][0], 0) <= min_of(b[0][1], basis.size.x) && max_of(b[1][0], 0) <= min_of(
            b[1][1],
            basis.size.y,
        )
    }

    /// Whether the orientations of the two boxes are almost equal.
    pub fn is_almost_axis_aligned(lhs: &BoundingBox, rhs: &BoundingBox) -> (r: bool)
        ensures
            r == lhs@.almost_aligned(rhs@),
    {
        let diff: i128 = rhs.ori as i128 - lhs.ori as i128;
        -(ORI_EPSILON as i128) < diff && diff < ORI_EPSILON as i128
    }

    /// Whether two boxes overlap; touching edges count.
    pub fn check_collision(lhs: &BoundingBox, rhs: &BoundingBox) -> (r: bool)
        requires
            lhs.wf(),
            rhs.wf(),
            lhs.comparable(rhs),
        ensures
            r == lhs@.collides(rhs@),
    {
        let does_not_need_secondary_check = Self::is_almost_axis_aligned(lhs, rhs);
        lhs.check_half_collision(rhs) && (does_not_need_secondary_check
            || rhs.check_half_collision(lhs))
    }

    /// A copy of the box moved by `offset`.
    pub fn translated(&self, offset: Vec2) -> (r: BoundingBox)
        requires
            i64::MIN <= self.pos.x + offset.x <= i64::MAX,
            i64::MIN <= self.pos.y + offset.y <= i64::MAX,
        ensures
            r.pos@ == (self.pos.x + offset.x, self.pos.y + offset.y),
            r.size == self.size,
            r.ori == self.ori,
    {
        BoundingBox { pos: self.pos.plus(offset), size: self.size, ori: self.ori }
    }
}

fn min_of(a: i64, b: i64) -> (r: i64)
    ensures
        r == min2(a as int, b as int),
{
    if a <= b {
        a
    } else {
        b
    }
}

fn max_of(a: i64, b: i64) -> (r: i64)
    ensures
        r == max2(a as int, b as int),
{
    if a >= b {
        a
    } else {
        b
    }
}

/// A rotated point is no farther from the origin, along either axis, than the
/// sum of the point's coordinates' magnitudes.
pub proof fn lemma_rotated_bound(point: (int, int), ori: int)
    ensures
        ({
            let r = rotated(point, ori);
            let reach = max2(point.0, -point.0) + max2(point.1, -point.1);
            &&& -reach <= r.0 <= reach
            &&& -reach <= r.1 <= reach
        }),
{
    let (c, s) = cos_sin(ori);
    lemma_cos_sin(ori);
    let x = point.0;
    let y = point.1;
    let ax = max2(x, -x);
    let ay = max2(y, -y);
    let one = ONE as int;
    assert(-(one * ax) <= c * x <= one * ax && -(one * ax) <= s * x <= one * ax) by (nonlinear_arith)
        requires
            -one <= c <= one,
            -one <= s <= one,
            -ax <= x <= ax,
            0 <= one,
    ;
    assert(-(one * ay) <= c * y <= one * ay && -(one * ay) <= s * y <= one * ay) by (nonlinear_arith)
        requires
            -one <= c <= one,
            -one <= s <= one,
            -ay <= y <= ay,
            0 <= one,
    ;
    lemma_div_toward_zero_bound(c * x - s * y, ax + ay);
    lemma_div_toward_zero_bound(s * x + c * y, ax + ay);
}

/// Dividing by `ONE` toward zero keeps a bound that was scaled by `ONE`.
pub proof fn lemma_div_toward_zero_bound(a: int, bound: int)
    requires
        -(ONE * bound) <= a <= ONE * bound,
    ensures
        -bound <= div_toward_zero(a, ONE as int) <= bound,
{
}

/// Rotating by the angle zero changes nothing.
pub proof fn lemma_rotated_by_zero(point: (int, int))
    ensures
        rotated(point, 0) == point,
{
    lemma_cos_sin(0);
    let one = ONE as int;
    assert(one * point.0 - 0 * point.1 == one * point.0 && 0 * point.0 + one * point.1 == one
        * point.1) by (nonlinear_arith);
}

/// Rotating the mirrored point gives the mirrored result.
pub proof fn lemma_rotated_negated(point: (int, int), ori: int)
    ensures
        rotated((-point.0, -point.1), ori) == (-rotated(point, ori).0, -rotated(point, ori).1),
{
    let (c, s) = cos_sin(ori);
    let x = point.0;
    let y = point.1;
    assert(c * (-x) - s * (-y) == -(c * x - s * y) && s * (-x) + c * (-y) == -(s * x + c * y))
        by (nonlinear_arith);
}

/// The origin stays where it is under every rotation.
pub proof fn lemma_rotated_origin(ori: int)
    ensures
        rotated((0, 0), ori) == (0int, 0int),
{
    let (c, s) = cos_sin(ori);
    assert(c * 0 - s * 0 == 0 && s * 0 + c * 0 == 0) by (nonlinear_arith);
}

/// Rounding toward zero loses less than one unit of the quotient.
pub proof fn lemma_div_toward_zero_error(a: int)
    ensures
        -(ONE - 1) <= a - ONE * div_toward_zero(a, ONE as int) <= ONE - 1,
{
}

proof fn lemma_scaled_combination(k: int, c: int, s: int, p: int, q: int)
    ensures
        k * (c * p + s * q) == c * (k * p) + s * (k * q),
{
    assert(k * (c * p + s * q) == k * (c * p) + k * (s * q)) by (nonlinear_arith);
    assert(k * (c * p) == c * (k * p)) by (nonlinear_arith);
    assert(k * (s * q) == s * (k * q)) by (nonlinear_arith);
}

proof fn lemma_product_of_difference(c: int, a: int, e: int)
    ensures
        c * (a - e) == c * a - c * e,
{
    assert(c * (a - e) == c * a - c * e) by (nonlinear_arith);
}

/// The algebra behind turning back: the cross terms cancel.
proof fn lemma_turn_and_back(c: int, s: int, x: int, y: int)
    ensures
        c * (c * x - s * y) + s * (s * x + c * y) == (c * c + s * s) * x,
        (-s) * (c * x - s * y) + c * (s * x + c * y) == (c * c + s * s) * y,
{
    assert(c * (c * x - s * y) == c * c * x - c * s * y) by (nonlinear_arith);
    assert(s * (s * x + c * y) == s * s * x + c * s * y) by (nonlinear_arith);
    assert((c * c + s * s) * x == c * c * x + s * s * x) by (nonlinear_arith);
    assert((-s) * (c * x - s * y) == s * s * y - c * s * x) by (nonlinear_arith);
    assert(c * (s * x + c * y) == c * s * x + c * c * y) by (nonlinear_arith);
    assert((c * c + s * s) * y == c * c * y + s * s * y) by (nonlinear_arith);
}

/// Turning a point by an angle and back by the same angle returns the point
/// up to rounding: along each axis the result is off by at most three
/// millionths of a unit plus two millionths of the coordinate.
pub proof fn lemma_rotate_round_trip(point: (int, int), ori: int)
    ensures
        ({
            let back = rotated(rotated(point, ori), -ori);
            &&& ONE * (back.0 - point.0) <= 2 * max2(point.0, -point.0) + 3 * ONE
            &&& ONE * (point.0 - back.0) <= 2 * max2(point.0, -point.0) + 3 * ONE
            &&& ONE * (back.1 - point.1) <= 2 * max2(point.1, -point.1) + 3 * ONE
            &&& ONE * (point.1 - back.1) <= 2 * max2(point.1, -point.1) + 3 * ONE
        }),
{
    let one = ONE as int;
    let (c, s) = cos_sin(ori);
    lemma_cos_sin(ori);
    assert(cos_sin(-ori) == (c, -s));
    let x = point.0;
    let y = point.1;
    let a = c * x - s * y;
    let b = s * x + c * y;
    let qx = div_toward_zero(a, one);
    let qy = div_toward_zero(b, one);
    assert(rotated(point, ori) == (qx, qy));
    let e1 = a - one * qx;
    let e2 = b - one * qy;
    lemma_div_toward_zero_error(a);
    lemma_div_toward_zero_error(b);
    let cx = c * qx - (-s) * qy;
    let cy = (-s) * qx + c * qy;
    let rx = div_toward_zero(cx, one);
    let ry = div_toward_zero(cy, one);
    assert(rotated((qx, qy), -ori) == (rx, ry));
    let e3 = cx - one * rx;
    let e4 = cy - one * ry;
    lemma_div_toward_zero_error(cx);
    lemma_div_toward_zero_error(cy);
    let n = c * c + s * s;
    let gap = one * one - n;
    assert(0 <= gap <= 2 * one);
    assert(one * cx == n * x - (c * e1 + s * e2)) by {
        lemma_scaled_combination(one, c, s, qx, qy);
        lemma_product_of_difference(c, a, e1);
        lemma_product_of_difference(s, b, e2);
        lemma_turn_and_back(c, s, x, y);
        assert(c * qx - (-s) * qy == c * qx + s * qy) by (nonlinear_arith);
    }
    assert(one * cy == n * y + (s * e1 - c * e2)) by {
        lemma_scaled_combination(one, -s, c, qx, qy);
        lemma_product_of_difference(-s, a, e1);
        lemma_product_of_difference(c, b, e2);
        lemma_turn_and_back(c, s, x, y);
        assert((-s) * e1 == -(s * e1)) by (nonlinear_arith);
    }
    assert(-(2 * one * (one - 1)) <= c * e1 + s * e2 <= 2 * one * (one - 1) && -(2 * one * (one
        - 1)) <= s * e1 - c * e2 <= 2 * one * (one - 1)) by (nonlinear_arith)
        requires
            -one <= c <= one,
            -one <= s <= one,
            -(one - 1) <= e1 <= one - 1,
            -(one - 1) <= e2 <= one - 1,
            0 < one,
    ;
    let ax = max2(x, -x);
    let ay = max2(y, -y);
    assert(-(2 * one * ax) <= gap * x <= 2 * one * ax) by (nonlinear_arith)
        requires
            0 <= gap <= 2 * one,
            -ax <= x <= ax,
    ;
    assert(-(2 * one * ay) <= gap * y <= 2 * one * ay) by (nonlinear_arith)
        requires
            0 <= gap <= 2 * one,
            -ay <= y <= ay,
    ;
    assert(one * one * (rx - x) == -(gap * x) - (c * e1 + s * e2) - one * e3) by (nonlinear_arith)
        requires
            one * cx == n * x - (c * e1 + s * e2),
            e3 == cx - one * rx,
            gap == one * one - n,
    ;
    assert(one * one * (ry - y) == -(gap * y) + (s * e1 - c * e2) - one * e4) by (nonlinear_arith)
        requires
            one * cy == n * y + (s * e1 - c * e2),
            e4 == cy - one * ry,
            gap == one * one - n,
    ;
    assert(one * one * (rx - x) == one * (one * (rx - x)) && one * one * (ry - y) == one * (one
        * (ry - y))) by (nonlinear_arith);
}

impl BoxModel {
    /// Seen from `basis`, the box lies wholly beyond one of the four sides
    /// of `basis`: an axis of `basis` separates the two.
    pub open spec fn separated_from(self, basis: BoxModel) -> bool {
        let n = self.normalized_wrt(basis);
        ||| n.max_x() < 0
        ||| n.min_x() > basis.size.0
        ||| n.max_y() < 0
        ||| n.min_y() > basis.size.1
    }

    /// A half-check fails exactly when an axis of the basis separates the boxes.
    pub proof fn lemma_half_collides_iff_not_separated(self, basis: BoxModel)
        requires
            basis.valid(),
        ensures
            self.half_collides(basis) <==> !self.separated_from(basis),
    {
    }

    /// Between boxes of equal orientation the half-check gives the same
    /// answer in both directions.
    pub proof fn lemma_half_collides_aligned(self, other: BoxModel)
        requires
            self.valid(),
            other.valid(),
            self.ori == other.ori,
        ensures
            self.half_collides(other) == other.half_collides(self),
    {
        let d = (self.pos.0 - other.pos.0, self.pos.1 - other.pos.1);
        lemma_rotated_negated(d, -self.ori);
        let n = self.normalized_wrt(other);
        let m = other.normalized_wrt(self);
        assert(m.pos == (-n.pos.0, -n.pos.1));
        lemma_rotated_by_zero(self.base_corner(0));
        lemma_rotated_by_zero(self.base_corner(1));
        lemma_rotated_by_zero(self.base_corner(2));
        lemma_rotated_by_zero(self.base_corner(3));
        lemma_rotated_by_zero(other.base_corner(0));
        lemma_rotated_by_zero(other.base_corner(1));
        lemma_rotated_by_zero(other.base_corner(2));
        lemma_rotated_by_zero(other.base_corner(3));
        assert(n.min_x() == n.pos.0 && n.max_x() == n.pos.0 + self.size.0);
        assert(n.min_y() == n.pos.1 && n.max_y() == n.pos.1 + self.size.1);
        assert(m.min_x() == m.pos.0 && m.max_x() == m.pos.0 + other.size.0);
        assert(m.min_y() == m.pos.1 && m.max_y() == m.pos.1 + other.size.1);
    }

    /// Two boxes of identical position, size and orientation collide.
    pub proof fn lemma_identical_boxes_collide(self)
        requires
            self.valid(),
        ensures
            self.collides(self),
    {
        let n = self.normalized_wrt(self);
        lemma_rotated_origin(-self.ori);
        lemma_rotated_by_zero(self.base_corner(0));
        lemma_rotated_by_zero(self.base_corner(1));
        lemma_rotated_by_zero(self.base_corner(2));
        lemma_rotated_by_zero(self.base_corner(3));
        assert(n.min_x() == 0 && n.max_x() == self.size.0);
        assert(n.min_y() == 0 && n.max_y() == self.size.1);
    }

    /// The collision test does not depend on the order of its arguments.
    pub proof fn lemma_collides_symmetric(self, other: BoxModel)
        requires
            self.valid(),
            other.valid(),
        ensures
            self.collides(other) == other.collides(self),
    {
        if self.almost_aligned(other) {
            self.lemma_half_collides_aligned(other);
        }
    }

    /// If an axis of either box separates the two, they do not collide.
    pub proof fn lemma_separated_boxes_do_not_collide(self, other: BoxModel)
        requires
            self.valid(),
            other.valid(),
            self.separated_from(other) || other.separated_from(self),
        ensures
            !self.collides(other),
    {
        self.lemma_half_collides_iff_not_separated(other);
        other.lemma_half_collides_iff_not_separated(self);
        if self.almost_aligned(other) {
            self.lemma_half_collides_aligned(other);
        }
    }

    /// A box without extent is a point. It meets `other` in a half-check
    /// exactly when, seen from `other`, the point lies inside `other` or on
    /// its border; a point outside collides with nothing.
    pub proof fn lemma_zero_size_box(self, other: BoxModel)
        requires
            self.size == (0int, 0int),
            other.valid(),
        ensures
            ({
                let p = self.normalized_wrt(other).pos;
                let inside = 0 <= p.0 <= other.size.0 && 0 <= p.1 <= other.size.1;
                &&& self.half_collides(other) == inside
                &&& !inside ==> !self.collides(other) && !other.collides(self)
            }),
    {
        let n = self.normalized_wrt(other);
        lemma_rotated_origin(n.ori);
        assert(n.min_x() == n.pos.0 && n.max_x() == n.pos.0);
        assert(n.min_y() == n.pos.1 && n.max_y() == n.pos.1);
        self.lemma_collides_symmetric(other);
    }
}

/// The square of a number that lies in `[-bound, bound]` is at most the
/// square of the bound.
proof fn lemma_square_bound(v: int, bound: int)
    requires
        -bound <= v <= bound,
    ensures
        0 <= v * v <= bound * bound,
{
    assert(0 <= v * v <= bound * bound) by (nonlinear_arith)
        requires
            -bound <= v <= bound,
    ;
}

/// Turning keeps the squared length, up to the squared length of the
/// direction: `(c·x − s·y)² + (s·x + c·y)² = (c² + s²)·(x² + y²)`.
proof fn lemma_turn_keeps_length(c: int, s: int, x: int, y: int)
    ensures
        (c * x - s * y) * (c * x - s * y) + (s * x + c * y) * (s * x + c * y) == (c * c + s * s)
            * (x * x + y * y),
{
    let cx = c * x;
    let sy = s * y;
    let sx = s * x;
    let cy = c * y;
    assert((cx - sy) * (cx - sy) == cx * cx - 2 * (cx * sy) + sy * sy) by (nonlinear_arith);
    assert((sx + cy) * (sx + cy) == sx * sx + 2 * (sx * cy) + cy * cy) by (nonlinear_arith);
    assert(cx * sy == sx * cy) by (nonlinear_arith)
        requires
            cx == c * x,
            sy == s * y,
            sx == s * x,
            cy == c * y,
    ;
    assert(cx * cx == (c * c) * (x * x)) by (nonlinear_arith)
        requires
            cx == c * x,
    ;
    assert(sy * sy == (s * s) * (y * y)) by (nonlinear_arith)
        requires
            sy == s * y,
    ;
    assert(sx * sx == (s * s) * (x * x)) by (nonlinear_arith)
        requires
            sx == s * x,
    ;
    assert(cy * cy == (c * c) * (y * y)) by (nonlinear_arith)
        requires
            cy == c * y,
    ;
    let cc = c * c;
    let ss = s * s;
    let xx = x * x;
    let yy = y * y;
    assert((cc + ss) * (xx + yy) == cc * xx + cc * yy + ss * xx + ss * yy) by (nonlinear_arith);
}

/// A point far from the origin stays far under every rotation: if one of
/// its coordinates is at least `2 * (reach + 1)` in magnitude, one of the
/// rotated coordinates exceeds `reach` in magnitude.
pub proof fn lemma_rotated_stays_far(point: (int, int), ori: int, reach: int)
    requires
        0 <= reach,
        max2(max2(point.0, -point.0), max2(point.1, -point.1)) >= 2 * (reach + 1),
    ensures
        ({
            let r = rotated(point, ori);
            r.0 > reach || r.0 < -reach || r.1 > reach || r.1 < -reach
        }),
{
    let one = ONE as int;
    let (c, s) = cos_sin(ori);
    lemma_cos_sin(ori);
    let x = point.0;
    let y = point.1;
    let a = c * x - s * y;
    let b = s * x + c * y;
    let r = rotated(point, ori);
    if -reach <= r.0 <= reach && -reach <= r.1 <= reach {
        lemma_div_toward_zero_error(a);
        lemma_div_toward_zero_error(b);
        let k = reach + 1;
        let bound = one * k;
        lemma_square_bound(a, bound);
        lemma_square_bound(b, bound);
        lemma_turn_keeps_length(c, s, x, y);
        let n = c * c + s * s;
        let len = x * x + y * y;
        let far = 2 * k;
        assert(len >= far * far) by (nonlinear_arith)
            requires
                len == x * x + y * y,
                x >= far || -x >= far || y >= far || -y >= far,
                far >= 0,
        ;
        assert(n * len >= (one * one - 2 * one) * (far * far)) by (nonlinear_arith)
            requires
                n >= one * one - 2 * one,
                one * one - 2 * one >= 0,
                len >= far * far,
                far * far >= 0,
        ;
        let kk = k * k;
        assert(far * far == 4 * kk) by (nonlinear_arith)
            requires
                far == 2 * k,
                kk == k * k,
        ;
        assert(bound * bound == one * one * kk) by (nonlinear_arith)
            requires
                bound == one * k,
                kk == k * k,
        ;
        assert(kk >= 1) by (nonlinear_arith)
            requires
                k >= 1,
                kk == k * k,
        ;
        assert((one * one - 2 * one) * (4 * kk) > 2 * (one * one * kk)) by (nonlinear_arith)
            requires
                one == 1_000_000,
                kk >= 1,
        ;
    }
}

impl BoxModel {
    /// The sum of the box's width and height: no corner is farther from the
    /// box's position, along either axis.
    pub open spec fn reach(self) -> int {
        self.size.0 + self.size.1
    }

    /// Every corner of a box lies within the box's reach of its position.
    pub proof fn lemma_corner_within_reach(self, i: int)
        requires
            self.valid(),
        ensures
            self.pos.0 - self.reach() <= self.corner(i).0 <= self.pos.0 + self.reach(),
            self.pos.1 - self.reach() <= self.corner(i).1 <= self.pos.1 + self.reach(),
    {
        lemma_rotated_bound(self.base_corner(i), self.ori);
    }

    /// Two boxes whose positions differ, along some axis of the world, by at
    /// least twice what both boxes reach together, plus one unit of the
    /// grid, do not collide, whatever their orientations.
    pub proof fn lemma_far_boxes_do_not_collide(self, other: BoxModel)
        requires
            self.valid(),
            other.valid(),
            ({
                let dx = self.pos.0 - other.pos.0;
                let dy = self.pos.1 - other.pos.1;
                max2(max2(dx, -dx), max2(dy, -dy)) >= 2 * (self.reach() + other.reach() + 1)
            }),
        ensures
            !self.collides(other),
    {
        let d = (self.pos.0 - other.pos.0, self.pos.1 - other.pos.1);
        lemma_rotated_stays_far(d, -other.ori, self.reach() + other.reach());
        let n = self.normalized_wrt(other);
        n.lemma_corner_within_reach(0);
        n.lemma_corner_within_reach(1);
        n.lemma_corner_within_reach(2);
        n.lemma_corner_within_reach(3);
        assert(self.separated_from(other));
        self.lemma_separated_boxes_do_not_collide(other);
    }

    /// Between two boxes that are not rotated the test is the overlap of
    /// their extents along both axes, borders included.
    pub proof fn lemma_unrotated_boxes_collide_iff_extents_overlap(self, other: BoxModel)
        requires
            self.valid(),
            other.valid(),
            self.ori == 0,
            other.ori == 0,
        ensures
            self.collides(other) <==> {
                &&& self.pos.0 <= other.pos.0 + other.size.0
                &&& other.pos.0 <= self.pos.0 + self.size.0
                &&& self.pos.1 <= other.pos.1 + other.size.1
                &&& other.pos.1 <= self.pos.1 + self.size.1
            },
    {
        let n = self.normalized_wrt(other);
        lemma_rotated_by_zero((self.pos.0 - other.pos.0, self.pos.1 - other.pos.1));
        lemma_rotated_by_zero(self.base_corner(0));
        lemma_rotated_by_zero(self.base_corner(1));
        lemma_rotated_by_zero(self.base_corner(2));
        lemma_rotated_by_zero(self.base_corner(3));
        assert(n.min_x() == n.pos.0 && n.max_x() == n.pos.0 + self.size.0);
        assert(n.min_y() == n.pos.1 && n.max_y() == n.pos.1 + self.size.1);
    }
}

} // verus!
