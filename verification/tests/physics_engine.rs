use walpurgis::physics::collision::{check_for_collisions, check_for_hb_collisions, Collidable};
use walpurgis::physics::obb::BoundingBox;
use walpurgis::physics::vector::{Vec2, ONE};
use walpurgis::screens::battle::player::inputs::InputScheme;
use walpurgis::screens::battle::player::meta::Race;
use walpurgis::screens::battle::player::Player;

/// The fixed-point value of a decimal number.
fn fx(v: f64) -> i64 {
    (v * ONE as f64).round() as i64
}

fn v2(x: f64, y: f64) -> Vec2 {
    Vec2::new(fx(x), fx(y))
}

/// An entity that is nothing but its hitboxes, standing at the origin.
fn dummy(boxes: Vec<BoundingBox>) -> Player {
    Player::new(boxes, Vec2::new(0, 0), Race::Robot, InputScheme::default())
}

fn box_list1() -> Vec<BoundingBox> {
    vec![
        BoundingBox { pos: Vec2::zeros(), size: v2(1., 1.), ori: 0 },
        BoundingBox { pos: v2(1.5, 0.), size: v2(1., 1.), ori: 0 },
    ]
}

fn box_list2() -> Vec<BoundingBox> {
    vec![
        BoundingBox { pos: v2(-50.1, -50.1), size: v2(1., 1.), ori: 0 },
        BoundingBox { pos: v2(1.25, 0.), size: v2(1., 1.), ori: fx(std::f64::consts::PI / 4.) },
    ]
}

fn box_list3() -> Vec<BoundingBox> {
    vec![
        BoundingBox { pos: v2(50.1, 50.1), size: v2(1., 1.), ori: 0 },
        BoundingBox { pos: v2(51.25, 50.), size: v2(1., 1.), ori: fx(std::f64::consts::PI / 4.) },
    ]
}

fn pair_matches2<E>(tp1: (&E, &E), tp2: (&E, &E)) -> bool {
    (std::ptr::eq(tp1.0, tp2.0) && std::ptr::eq(tp1.1, tp2.1))
        || (std::ptr::eq(tp1.0, tp2.1) && std::ptr::eq(tp1.1, tp2.0))
}

#[test]
fn physics_hb_collisions_test() {
    let boxes1 = box_list1();
    let boxes2 = box_list2();
    let correct_collisions = vec![(&boxes1[0], &boxes2[1]), (&boxes1[1], &boxes2[1])];
    let pairs = check_for_hb_collisions(false, Vec2::new(0, 0), (&boxes1, &boxes2));
    assert!(pairs.len() == correct_collisions.len());

    for element in correct_collisions.iter() {
        assert!(pairs.iter().filter(|a| pair_matches2(**a, *element)).count() == 1);
    }
}

#[test]
fn physics_collisions_test() {
    let element1 = dummy(box_list1());
    let element2 = dummy(box_list2());
    let element3 = dummy(box_list3());
    let elements = vec![element1, element2, element3];
    let collisions = check_for_collisions(&elements[..]);
    assert!(collisions.len() == 1);
    if std::ptr::eq(collisions[0].objs.0, &elements[0]) {
        assert!(std::ptr::eq(collisions[0].objs.0, &elements[0]));
        assert!(std::ptr::eq(collisions[0].objs.1, &elements[1]));
    } else {
        assert!(std::ptr::eq(collisions[0].objs.1, &elements[0]));
        assert!(std::ptr::eq(collisions[0].objs.0, &elements[1]));
    }
    assert!(collisions[0].overlapping_hitboxes.len() == 2);
    if pair_matches2(
        collisions[0].overlapping_hitboxes[0],
        (&elements[0].get_hitboxes()[0], &elements[1].get_hitboxes()[1]),
    ) {
        assert!(pair_matches2(
            collisions[0].overlapping_hitboxes[0],
            (&elements[0].get_hitboxes()[0], &elements[1].get_hitboxes()[1])
        ));
        assert!(pair_matches2(
            collisions[0].overlapping_hitboxes[1],
            (&elements[0].get_hitboxes()[1], &elements[1].get_hitboxes()[1])
        ));
    } else {
        assert!(pair_matches2(
            collisions[0].overlapping_hitboxes[1],
            (&elements[0].get_hitboxes()[0], &elements[1].get_hitboxes()[1])
        ));
        assert!(pair_matches2(
            collisions[0].overlapping_hitboxes[0],
            (&elements[0].get_hitboxes()[1], &elements[1].get_hitboxes()[1])
        ));
    }
}
