use walpurgis::physics::obb::BoundingBox;
use walpurgis::physics::vector::{Vec2, ONE};

/// The fixed-point value of a decimal number.
fn fx(v: f64) -> i64 {
    (v * ONE as f64).round() as i64
}

fn v2(x: f64, y: f64) -> Vec2 {
    Vec2::new(fx(x), fx(y))
}

fn approx_eq(a: Vec2, b: Vec2) -> bool {
    let epsilon = fx(1e-5);
    (a.x - b.x).abs() < epsilon && (a.y - b.y).abs() < epsilon
}

fn build_bounding() -> BoundingBox {
    BoundingBox { pos: v2(1., 2.), size: v2(3., 4.), ori: fx(std::f64::consts::PI / 2.) }
}

fn colliding_boxes() -> (BoundingBox, BoundingBox) {
    (
        BoundingBox { pos: Vec2::zeros(), size: v2(1., 1.), ori: 0 },
        BoundingBox { pos: Vec2::zeros(), size: v2(1., 1.), ori: 0 },
    )
}

fn separate_boxes() -> (BoundingBox, BoundingBox) {
    (
        BoundingBox { pos: Vec2::zeros(), size: v2(1., 1.), ori: 0 },
        BoundingBox { pos: v2(-0.1, -0.1), size: v2(1., 1.), ori: fx(std::f64::consts::PI) },
    )
}

fn pathological_separate_boxes() -> (BoundingBox, BoundingBox) {
    (
        BoundingBox { pos: Vec2::zeros(), size: v2(1., 1.), ori: 0 },
        BoundingBox { pos: v2(1.5, 0.5), size: v2(5., 0.5), ori: fx(std::f64::consts::PI / 4.) },
    )
}

#[test]
fn obb_bounding_box_rotate() {
    let ex = v2(0.5, 0.5);
    let ex_quarter = BoundingBox::rotate(ex, fx(std::f64::consts::PI / 2.));
    assert!(approx_eq(ex, v2(0.5, 0.5)));
    assert!(approx_eq(ex_quarter, v2(-0.5, 0.5)));
    let ex_half = BoundingBox::rotate(ex_quarter, fx(std::f64::consts::PI / 2.));
    assert!(approx_eq(ex_half, v2(-0.5, -0.5)));
}

#[test]
fn obb_obb_base_corners() {
    let corners = build_bounding().base_corners();
    assert!(approx_eq(corners[0], v2(0., 0.)));
    assert!(approx_eq(corners[1], v2(0., 4.)));
    assert!(approx_eq(corners[2], v2(3., 0.)));
    assert!(approx_eq(corners[3], v2(3., 4.)));
}

#[test]
fn obb_obb_rot_matrix() {
    let rot = build_bounding().rot_matrix();
    let ex = v2(0.5, 0.5);
    let turned = Vec2::new(
        (rot[0][0] * ex.x + rot[0][1] * ex.y) / ONE,
        (rot[1][0] * ex.x + rot[1][1] * ex.y) / ONE,
    );
    assert!(approx_eq(turned, v2(-0.5, 0.5)));
}

#[test]
fn obb_obb_corners() {
    let corners = build_bounding().corners();
    assert!(approx_eq(corners[0], v2(1., 2.)));
    assert!(approx_eq(corners[1], v2(-3., 2.)));
    assert!(approx_eq(corners[2], v2(1., 5.)));
    assert!(approx_eq(corners[3], v2(-3., 5.)));
}

#[test]
fn obb_obb_bounds() {
    let bounds = build_bounding().bounds();
    assert!(approx_eq(Vec2::new(bounds[0][0], bounds[0][1]), v2(-3., 1.)));
    assert!(approx_eq(Vec2::new(bounds[1][0], bounds[1][1]), v2(2., 5.)));
}

#[test]
fn obb_obb_half_collision() {
    {
        // separate
        let (a, b) = separate_boxes();
        assert!(!a.check_half_collision(&b))
    }
    {
        // colliding
        let (a, b) = colliding_boxes();
        assert!(a.check_half_collision(&b));
    }
    {
        // pathological separate
        let (a, b) = pathological_separate_boxes();
        assert!(a.check_half_collision(&b));
    }
}

#[test]
fn obb_obb_collision() {
    {
        // separate
        let (a, b) = separate_boxes();
        assert!(!BoundingBox::check_collision(&a, &b));
    }
    {
        // colliding
        let (a, b) = colliding_boxes();
        assert!(BoundingBox::check_collision(&a, &b));
    }
    {
        // pathological separate
        let (a, b) = pathological_separate_boxes();
        assert!(!BoundingBox::check_collision(&a, &b));
    }
}

#[test]
fn obb_obb_norm_wrt() {
    let b = build_bounding();
    let normed = b.normalized_wrt(&b);
    assert!(approx_eq(normed.pos, v2(0., 0.)));
    assert!(approx_eq(normed.size, v2(3., 4.)));
    assert!(normed.ori.abs() < fx(1e-5));
    let mut weird_b = b.clone();
    weird_b.pos.x = 0;
    weird_b.ori = fx(-std::f64::consts::PI / 2.);
    let normed = b.normalized_wrt(&weird_b);
    // Seen from a basis that is turned a quarter turn clockwise, the unit
    // step to the right points up.
    assert!(approx_eq(normed.pos, v2(0., 1.)));
    assert!(approx_eq(normed.size, v2(3., 4.)));
    assert!((normed.ori - fx(std::f64::consts::PI)).abs() < fx(1e-5));
}
