use walpurgis::physics::collision::{
    check_for_collision_pairs, check_for_collisions, check_for_hb_collisions, Collidable,
    Mergeable,
};
use walpurgis::physics::obb::{BoundingBox, GeometryError};
use walpurgis::physics::vector::{Vec2, ONE, WORLD_MAX};
use walpurgis::screens::battle::arena::Arena;
use walpurgis::screens::battle::interactions::{
    handle_platform_platform_collision, handle_player_platform_collision,
    handle_player_player_collision,
};
use walpurgis::screens::battle::platform::Platform;
use walpurgis::screens::battle::player::inputs::InputScheme;
use walpurgis::screens::battle::player::meta::Race;
use walpurgis::screens::battle::player::{test_player, Changes, Player};
use walpurgis::screens::battle::BattleData;

/// The fixed-point value of a decimal number.
fn fx(v: f64) -> i64 {
    (v * ONE as f64).round() as i64
}

fn v2(x: f64, y: f64) -> Vec2 {
    Vec2::new(fx(x), fx(y))
}

fn unit_box_at(x: f64, y: f64) -> BoundingBox {
    BoundingBox { pos: v2(x, y), size: v2(1., 1.), ori: 0 }
}

fn fighter(boxes: Vec<BoundingBox>, position: Vec2) -> Player {
    Player::new(boxes, position, Race::Mage, InputScheme::default())
}

fn changes(force: Vec2, contacted_platforms: Vec<usize>) -> Changes {
    Changes { force, contacted_platforms }
}

fn arena(platforms: Vec<Platform>) -> Arena {
    Arena { name: String::from("test"), platforms }
}

#[test]
fn fighter_box_against_platform_box_gives_one_collision_with_one_pair() {
    let fighters = vec![fighter(vec![unit_box_at(0., 0.)], Vec2::zeros())];
    let platforms = vec![Platform { body: unit_box_at(0.5, 0.) }];
    let collisions = check_for_collision_pairs(fighters.as_slice(), platforms.as_slice());
    assert_eq!(collisions.len(), 1);
    assert_eq!(collisions[0].ids, (0, 0));
    assert_eq!(collisions[0].overlapping_hitboxes.len(), 1);
    assert_eq!(*collisions[0].overlapping_hitboxes[0].0, unit_box_at(0., 0.));
    assert_eq!(*collisions[0].overlapping_hitboxes[0].1, unit_box_at(0.5, 0.));
}

#[test]
fn far_away_entity_is_in_no_record() {
    let entities = vec![
        fighter(vec![unit_box_at(0., 0.)], Vec2::zeros()),
        fighter(vec![unit_box_at(0., 0.)], v2(0.5, 0.5)),
        fighter(vec![unit_box_at(0., 0.)], v2(500., 500.)),
    ];
    let collisions = check_for_collisions(entities.as_slice());
    assert_eq!(collisions.len(), 1);
    assert_eq!(collisions[0].ids, (0, 1));
    assert!(collisions.iter().all(|c| c.ids.0 != 2 && c.ids.1 != 2));
}

#[test]
fn offsets_place_the_boxes_of_an_entity() {
    // The same local box; only the offsets tell the two entities apart.
    let near = vec![
        fighter(vec![unit_box_at(0., 0.)], v2(10., 10.)),
        fighter(vec![unit_box_at(0., 0.)], v2(10.75, 10.)),
    ];
    assert_eq!(check_for_collisions(near.as_slice()).len(), 1);
    let apart = vec![
        fighter(vec![unit_box_at(0., 0.)], v2(10., 10.)),
        fighter(vec![unit_box_at(0., 0.)], v2(11.25, 10.)),
    ];
    assert_eq!(check_for_collisions(apart.as_slice()).len(), 0);
}

#[test]
fn the_shorter_list_of_hitboxes_is_the_one_that_is_moved() {
    // Two boxes against one and one against two: the pairs come back with
    // the box of the first entity first either way.
    let two = fighter(vec![unit_box_at(0., 0.), unit_box_at(5., 0.)], v2(1., 0.));
    let one = fighter(vec![unit_box_at(0., 0.)], v2(1.5, 0.));
    let entities = vec![two, one];
    let collisions = check_for_collisions(entities.as_slice());
    assert_eq!(collisions.len(), 1);
    assert_eq!(collisions[0].overlapping_hitboxes.len(), 1);
    assert!(std::ptr::eq(collisions[0].overlapping_hitboxes[0].0, &entities[0].get_hitboxes()[0]));
    assert!(std::ptr::eq(collisions[0].overlapping_hitboxes[0].1, &entities[1].get_hitboxes()[0]));

    let entities = vec![
        fighter(vec![unit_box_at(0., 0.)], v2(1.5, 0.)),
        fighter(vec![unit_box_at(0., 0.), unit_box_at(5., 0.)], v2(1., 0.)),
    ];
    let collisions = check_for_collisions(entities.as_slice());
    assert_eq!(collisions.len(), 1);
    assert!(std::ptr::eq(collisions[0].overlapping_hitboxes[0].0, &entities[0].get_hitboxes()[0]));
    assert!(std::ptr::eq(collisions[0].overlapping_hitboxes[0].1, &entities[1].get_hitboxes()[0]));
}

#[test]
fn hitbox_search_applies_the_offset_to_the_side_that_is_named() {
    let left = vec![unit_box_at(0., 0.)];
    let right = vec![unit_box_at(3., 0.)];
    // Without an offset the boxes are apart.
    assert!(check_for_hb_collisions(false, Vec2::zeros(), (&left, &right)).is_empty());
    // Moving the first list by 2.5 to the right makes them overlap.
    assert_eq!(check_for_hb_collisions(false, v2(2.5, 0.), (&left, &right)).len(), 1);
    // Moving the second list by the same amount takes it further away.
    assert!(check_for_hb_collisions(true, v2(2.5, 0.), (&left, &right)).is_empty());
    // Moving the second list to the left makes them overlap.
    let hits = check_for_hb_collisions(true, v2(-2.5, 0.), (&left, &right));
    assert_eq!(hits.len(), 1);
    assert!(std::ptr::eq(hits[0].0, &left[0]));
    assert!(std::ptr::eq(hits[0].1, &right[0]));
}

#[test]
fn a_box_is_an_entity_of_one_hitbox_at_the_origin() {
    let boxes = vec![unit_box_at(0., 0.), unit_box_at(0.5, 0.5), unit_box_at(9., 9.)];
    assert_eq!(boxes[1].get_hitboxes().len(), 1);
    assert_eq!(boxes[1].get_hitboxes()[0], unit_box_at(0.5, 0.5));
    assert_eq!(boxes[1].get_offset(), Vec2::zeros());
    let collisions = check_for_collisions(boxes.as_slice());
    assert_eq!(collisions.len(), 1);
    assert_eq!(collisions[0].ids, (0, 1));
}

#[test]
fn zero_size_box_follows_the_inclusive_convention() {
    let point = BoundingBox { pos: v2(0.5, 0.5), size: Vec2::zeros(), ori: 0 };
    let same = point;
    let around = unit_box_at(0., 0.);
    let on_the_edge = BoundingBox { pos: v2(1., 0.5), size: Vec2::zeros(), ori: 0 };
    let outside = BoundingBox { pos: v2(1.000001, 0.5), size: Vec2::zeros(), ori: 0 };
    let turned = BoundingBox { pos: v2(0.5, 0.5), size: Vec2::zeros(), ori: fx(1.) };
    // Touching counts: a point meets a point at the same place, a box
    // around it, and a box whose edge it lies on.
    assert!(BoundingBox::check_collision(&point, &same));
    assert!(BoundingBox::check_collision(&point, &around));
    assert!(BoundingBox::check_collision(&around, &point));
    assert!(BoundingBox::check_collision(&on_the_edge, &around));
    assert!(BoundingBox::check_collision(&turned, &around));
    // A point outside a box meets nothing.
    assert!(!BoundingBox::check_collision(&outside, &around));
    assert!(!BoundingBox::check_collision(&around, &outside));
    assert!(!BoundingBox::check_collision(&outside, &point));
}

#[test]
fn far_box_never_collides_whatever_its_orientation() {
    let origin = unit_box_at(0., 0.);
    let mut ori = -7.;
    while ori < 7. {
        let far = BoundingBox { pos: v2(50., 50.), size: v2(1., 1.), ori: fx(ori) };
        assert!(!BoundingBox::check_collision(&origin, &far));
        assert!(!BoundingBox::check_collision(&far, &origin));
        ori += 0.137;
    }
}

#[test]
fn collision_is_symmetric_on_a_grid_of_boxes() {
    let oris = [0., 0.3, std::f64::consts::PI / 4., 1.2, -2.5, 3.9];
    let places = [-1.2, -0.4, 0., 0.7, 1.5];
    for &oa in oris.iter() {
        for &ob in oris.iter() {
            for &x in places.iter() {
                for &y in places.iter() {
                    let a = BoundingBox { pos: v2(0.2, -0.1), size: v2(1., 0.5), ori: fx(oa) };
                    let b = BoundingBox { pos: v2(x, y), size: v2(0.75, 1.25), ori: fx(ob) };
                    assert_eq!(
                        BoundingBox::check_collision(&a, &b),
                        BoundingBox::check_collision(&b, &a)
                    );
                    assert!(BoundingBox::check_collision(&b, &b));
                }
            }
        }
    }
}

#[test]
fn touching_edges_count_as_collision() {
    let a = unit_box_at(0., 0.);
    assert!(BoundingBox::check_collision(&a, &unit_box_at(1., 0.)));
    assert!(BoundingBox::check_collision(&a, &unit_box_at(1., 1.)));
    assert!(!BoundingBox::check_collision(&a, &unit_box_at(1.000001, 0.)));
    assert!(!BoundingBox::is_almost_axis_aligned(&a, &BoundingBox { ori: 1, ..a }));
    assert!(BoundingBox::is_almost_axis_aligned(&a, &unit_box_at(3., 3.)));
}

#[test]
fn rotating_there_and_back_returns_the_point() {
    let points = [v2(0.5, 0.5), v2(-3., 4.), v2(120.25, -77.5), v2(0., 0.)];
    let mut ori = -10.;
    while ori < 10. {
        for p in points.iter() {
            let back = BoundingBox::rotate(BoundingBox::rotate(*p, fx(ori)), -fx(ori));
            let tolerance = |c: i64| 3 + 2 * c.abs() / ONE + 1;
            assert!((back.x - p.x).abs() <= tolerance(p.x));
            assert!((back.y - p.y).abs() <= tolerance(p.y));
        }
        ori += 0.731;
    }
}

#[test]
fn rotation_has_exact_values_at_quarter_turns() {
    let p = v2(3., 4.);
    assert_eq!(BoundingBox::rotate(p, 0), p);
    assert_eq!(BoundingBox::rotate(p, 1_570_796), v2(-4., 3.));
    assert_eq!(BoundingBox::rotate(p, 3_141_592), v2(-3., -4.));
    assert_eq!(BoundingBox::rotate(p, -1_570_796), v2(4., -3.));
    assert_eq!(BoundingBox::rotate(p, 6_283_184), p);
    // An eighth of a turn: cosine 0.707106, sine 0.707107.
    assert_eq!(BoundingBox::rotate(v2(1., 0.), 785_398), Vec2::new(707_106, 707_107));
    // One radian: cosine 0.540302, sine 0.841471.
    let one = BoundingBox::rotate(v2(1., 0.), ONE);
    assert!((one.x - 540_302).abs() <= 2 && (one.y - 841_471).abs() <= 2);
}

#[test]
fn boxes_are_checked_at_construction() {
    let ok = BoundingBox::new(v2(1., 2.), v2(3., 4.), fx(0.5));
    assert_eq!(ok, Ok(BoundingBox { pos: v2(1., 2.), size: v2(3., 4.), ori: fx(0.5) }));
    assert_eq!(BoundingBox::new(Vec2::zeros(), Vec2::zeros(), 0).map(|b| b.size), Ok(Vec2::zeros()));
    assert_eq!(
        BoundingBox::new(Vec2::zeros(), Vec2::new(-1, 5), 0),
        Err(GeometryError::NegativeSize)
    );
    assert_eq!(
        BoundingBox::new(Vec2::zeros(), Vec2::new(5, -1), 0),
        Err(GeometryError::NegativeSize)
    );
    assert_eq!(
        BoundingBox::new(Vec2::new(WORLD_MAX + 1, 0), Vec2::new(5, 5), 0),
        Err(GeometryError::OutOfWorld)
    );
    assert_eq!(
        BoundingBox::new(Vec2::zeros(), Vec2::new(5, WORLD_MAX + 1), 0),
        Err(GeometryError::OutOfWorld)
    );
    assert_eq!(
        BoundingBox::new(Vec2::zeros(), Vec2::new(5, 5), -WORLD_MAX - 1),
        Err(GeometryError::OutOfWorld)
    );
    assert!(BoundingBox::new(Vec2::new(WORLD_MAX, -WORLD_MAX), Vec2::new(WORLD_MAX, 0), WORLD_MAX)
        .is_ok());
}

#[test]
fn translated_moves_only_the_position() {
    let b = BoundingBox { pos: v2(1., 2.), size: v2(3., 4.), ori: fx(0.5) };
    assert_eq!(
        b.translated(v2(-2., 10.)),
        BoundingBox { pos: v2(-1., 12.), size: v2(3., 4.), ori: fx(0.5) }
    );
}

#[test]
fn merge_is_associative_and_commutative() {
    let a = changes(v2(1., -2.), vec![3]);
    let b = changes(v2(0.25, 0.5), vec![1, 4]);
    let c = changes(v2(-7., 9.), vec![2]);
    let left = a.merge(&b).merge(&c);
    let right = a.merge(&b.merge(&c));
    assert_eq!(left.force, right.force);
    assert_eq!(left.force, v2(-5.75, 7.5));
    assert_eq!(left.contacted_platforms, right.contacted_platforms);
    assert_eq!(left.contacted_platforms, vec![3, 1, 4, 2]);

    let ab = a.merge(&b);
    let ba = b.merge(&a);
    assert_eq!(ab.force, ba.force);
    let mut ab_contacts = ab.contacted_platforms.clone();
    let mut ba_contacts = ba.contacted_platforms.clone();
    ab_contacts.sort();
    ba_contacts.sort();
    assert_eq!(ab_contacts, ba_contacts);
    assert_eq!(ab.contacted_platforms, vec![3, 1, 4]);
    assert_eq!(ba.contacted_platforms, vec![1, 4, 3]);
}

#[test]
fn default_changes_are_neutral() {
    let a = changes(v2(1., -2.), vec![3, 3]);
    let neutral = Changes::default();
    assert_eq!(neutral.force, Vec2::zeros());
    assert!(neutral.contacted_platforms.is_empty());
    let left = neutral.merge(&a);
    let right = a.merge(&neutral);
    assert_eq!(left.force, a.force);
    assert_eq!(right.force, a.force);
    assert_eq!(left.contacted_platforms, vec![3, 3]);
    assert_eq!(right.contacted_platforms, vec![3, 3]);
    let copy = a.clone();
    assert_eq!(copy.force, a.force);
    assert_eq!(copy.contacted_platforms, a.contacted_platforms);
}

#[test]
fn falling_fighter_stops_on_a_platform_it_touches() {
    let mut player = fighter(vec![unit_box_at(0., 0.)], v2(10., 20.));
    // Make it fall: one tick with a downward push.
    player.handle_push(v2(0.5, 3.));
    player.handle_phys_update();
    assert_eq!(player.velocity(), v2(0.5, 3.));
    assert_eq!(player.position(), v2(10.5, 23.));
    assert_eq!(player.acceleration(), Vec2::zeros());
    // Gravity and a first contact with platform 4.
    player.apply_changeset(changes(v2(0.25, 0.01), vec![4]));
    assert_eq!(player.acceleration(), v2(0.25, -3.));
    assert_eq!(player.touched_platforms(), &vec![4]);
    player.handle_phys_update();
    assert_eq!(player.velocity(), v2(0.75, 0.));
    assert_eq!(player.position(), v2(11.25, 23.));
    assert_eq!(player.acceleration(), Vec2::zeros());
}

#[test]
fn fighter_falls_through_platforms_it_ignores_and_on_without_contact() {
    let mut player = fighter(vec![unit_box_at(0., 0.)], v2(10., 20.));
    player.set_platforms_to_ignore(vec![4, 5]);
    player.handle_push(v2(0., 3.));
    player.handle_phys_update();
    player.apply_changeset(changes(v2(0., 0.01), vec![5, 4]));
    assert_eq!(player.acceleration(), v2(0., 0.01));
    player.handle_phys_update();
    assert_eq!(player.velocity(), v2(0., 3.01));
    assert_eq!(player.position(), v2(10., 26.01));
    // No contact at all: gravity acts.
    player.apply_changeset(changes(v2(0., 0.01), vec![]));
    assert!(player.touched_platforms().is_empty());
    player.handle_phys_update();
    assert_eq!(player.velocity(), v2(0., 3.02));
    // One platform that is not ignored among those touched stops the fall.
    player.apply_changeset(changes(v2(0., 0.01), vec![5, 7]));
    player.handle_phys_update();
    assert_eq!(player.velocity(), v2(0., 0.));
}

#[test]
fn rising_fighter_is_not_stopped_by_a_contact() {
    let mut player = fighter(vec![unit_box_at(0., 0.)], v2(0., 0.));
    player.handle_push(v2(0., -2.));
    player.handle_phys_update();
    player.apply_changeset(changes(v2(0., 0.01), vec![0]));
    player.handle_phys_update();
    assert_eq!(player.velocity(), v2(0., -1.99));
    assert_eq!(player.position(), v2(0., -3.99));
}

#[test]
fn fighters_stay_within_the_world() {
    let mut player = fighter(vec![unit_box_at(0., 0.)], Vec2::new(WORLD_MAX - 5, 0));
    player.handle_push(Vec2::new(i64::MAX, i64::MIN));
    assert_eq!(player.acceleration(), Vec2::new(WORLD_MAX, -WORLD_MAX));
    player.handle_phys_update();
    assert_eq!(player.velocity(), Vec2::new(WORLD_MAX, -WORLD_MAX));
    assert_eq!(player.position(), Vec2::new(WORLD_MAX, -WORLD_MAX));
}

#[test]
fn handlers_name_the_platform_for_the_fighter_only() {
    let fighters = vec![test_player()];
    let platforms = vec![
        Platform { body: BoundingBox { pos: v2(500., 500.), size: v2(1., 1.), ori: 0 } },
        Platform { body: BoundingBox { pos: v2(90., 20.), size: v2(100., 5.), ori: 0 } },
    ];
    let mut collisions = check_for_collision_pairs(fighters.as_slice(), platforms.as_slice());
    assert_eq!(collisions.len(), 1);
    let (for_player, for_platform) = handle_player_platform_collision(collisions.pop().unwrap());
    let for_player = for_player.unwrap();
    assert_eq!(for_player.force, Vec2::zeros());
    assert_eq!(for_player.contacted_platforms, vec![1]);
    assert_eq!(for_platform, None);

    let two = vec![test_player(), test_player()];
    let mut collisions = check_for_collisions(two.as_slice());
    assert_eq!(collisions.len(), 1);
    let (first, second) = handle_player_player_collision(collisions.pop().unwrap());
    assert!(first.is_none() && second.is_none());

    let mut collisions = check_for_collisions(&platforms[1..]);
    assert!(collisions.pop().is_none());
    let overlapping = vec![platforms[1], platforms[1]];
    let mut collisions = check_for_collisions(overlapping.as_slice());
    let (first, second) = handle_platform_platform_collision(collisions.pop().unwrap());
    assert!(first.is_none() && second.is_none());
}

#[test]
fn a_tick_lets_fighters_fall_until_a_platform_stops_them() {
    let platform = Platform { body: BoundingBox { pos: v2(0., 40.), size: v2(300., 10.), ori: 0 } };
    let mut battle = BattleData::load_first_arena_and_test_player(arena(vec![platform]));
    assert_eq!(battle.gravity, v2(0., 0.01));
    assert_eq!(battle.players.len(), 1);
    assert_eq!(battle.players[0].position(), v2(100., 0.));
    // First tick: the fighter's box spans y from 0 to 30, the platform
    // starts at 40. Nothing touches; gravity pulls.
    battle.handle_update();
    assert_eq!(battle.players[0].velocity(), v2(0., 0.01));
    assert_eq!(battle.players[0].position(), v2(100., 0.01));
    assert!(battle.players[0].touched_platforms().is_empty());
    battle.handle_update();
    assert_eq!(battle.players[0].velocity(), v2(0., 0.02));
    assert_eq!(battle.players[0].position(), v2(100., 0.03));
    // Ticks pass until the box reaches the platform.
    let mut ticks = 2;
    while battle.players[0].touched_platforms().is_empty() {
        battle.handle_update();
        ticks += 1;
        assert!(ticks < 1000);
    }
    // In the tick of the first contact the fall is cancelled.
    assert_eq!(battle.players[0].touched_platforms(), &vec![0]);
    assert_eq!(battle.players[0].velocity(), v2(0., 0.));
    let landed_at = battle.players[0].position();
    assert!(landed_at.y >= fx(10.) && landed_at.y < fx(10.5));
    // A fighter at rest is not falling, so the contact does not hold it:
    // gravity moves it for one tick, and the next contact stops it again.
    battle.handle_update();
    assert_eq!(battle.players[0].velocity(), v2(0., 0.01));
    assert_eq!(battle.players[0].position(), Vec2::new(landed_at.x, landed_at.y + fx(0.01)));
    battle.handle_update();
    assert_eq!(battle.players[0].velocity(), v2(0., 0.));
    assert_eq!(battle.players[0].position(), Vec2::new(landed_at.x, landed_at.y + fx(0.01)));
    assert_eq!(battle.arena.platforms[0].body, platform.body);
    assert_eq!(battle.arena.name, "test");
}

#[test]
fn a_tick_gives_every_fighter_its_own_contacts() {
    let platforms = vec![
        Platform { body: BoundingBox { pos: v2(0., 1.), size: v2(2., 1.), ori: 0 } },
        Platform { body: BoundingBox { pos: v2(10., 1.), size: v2(2., 1.), ori: 0 } },
        Platform { body: BoundingBox { pos: v2(0., 1.5), size: v2(20., 1.), ori: 0 } },
    ];
    let mut left = fighter(vec![unit_box_at(0., 0.)], v2(0.5, 0.75));
    let mut right = fighter(vec![unit_box_at(0., 0.)], v2(10.5, 0.75));
    let mut above = fighter(vec![unit_box_at(0., 0.)], v2(5., -10.));
    for player in [&mut left, &mut right, &mut above] {
        player.handle_push(v2(0., 0.1));
        player.handle_phys_update();
    }
    let mut battle =
        BattleData { players: vec![left, right, above], arena: arena(platforms), gravity: v2(0., 0.01) };
    battle.handle_update();
    assert_eq!(battle.players[0].touched_platforms(), &vec![0, 2]);
    assert_eq!(battle.players[1].touched_platforms(), &vec![1, 2]);
    assert!(battle.players[2].touched_platforms().is_empty());
    assert_eq!(battle.players[0].velocity(), v2(0., 0.));
    assert_eq!(battle.players[1].velocity(), v2(0., 0.));
    assert_eq!(battle.players[2].velocity(), v2(0., 0.11));
    assert_eq!(battle.players[0].position(), v2(0.5, 0.85));
    assert_eq!(battle.players[2].position(), v2(5., -9.79));
}
