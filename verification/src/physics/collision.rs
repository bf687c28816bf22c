//! Finding the entities that overlap.
//!
//! Detection works on a snapshot: it reads entities and returns records that
//! name the two entities by their index in the snapshot and list the pairs of
//! hitboxes that overlap. What an entity makes of a collision is its own
//! business; the engine only asks it for hitboxes and an offset.

use vstd::prelude::*;
use crate::physics::obb::{BoundingBox, BoxModel};
use crate::physics::vector::{Vec2, WORLD_MAX};
use crate::util::cartesian::{
    lemma_pair_rows, lemma_pair_rows_covered, lemma_product_pairs_covered, lemma_unique_pairs_at,
    product, product_pairs, unique_pairs, unique_square,
};
use crate::util::tuple::flipped;

verus! {

/// What a hitbox does to an entity that it hits.
#[derive(Clone, Copy, Debug, PartialEq, Eq, Structural)]
pub enum Effect {
    /// A push, as a force.
    Push(Vec2),
    /// Damage, as an amount.
    Damage(i64),
}

/// Changes to one entity that can be combined before they are applied.
pub trait Mergeable: Sized {
    /// The combination of the two can be represented.
    spec fn can_merge(&self, other: &Self) -> bool;

    /// Combines the changes of two collisions of one tick into one.
    fn merge(&self, other: &Self) -> (merged: Self)
        requires
            self.can_merge(other),
    ;
}

/// Anything that takes part in collisions.
pub trait Collidable {
    /// What collisions do to an entity of this kind, gathered over one tick.
    type ChangeSet;

    /// The hitboxes, in the entity's own coordinates.
    spec fn hitboxes(&self) -> Seq<BoundingBox>;

    /// Where the entity's coordinates have their origin in the world.
    spec fn offset(&self) -> Vec2;

    /// The list of hitboxes that make up the entity.
    fn get_hitboxes<'tick>(&'tick self) -> (boxes: &'tick [BoundingBox])
        ensures
            boxes@ == self.hitboxes(),
    ;

    /// The translation that places the entity's hitboxes in the world.
    fn get_offset(&self) -> (offset: Vec2)
        ensures
            offset == self.offset(),
    ;

    /// Applies what the collisions of one tick add up to.
    fn apply_changeset(&mut self, changes: Self::ChangeSet);

    /// Advances the entity by one tick.
    fn handle_phys_update(&mut self);
}

impl Mergeable for () {
    /// Nothing combines with nothing.
    open spec fn can_merge(&self, other: &Self) -> bool {
        true
    }

    fn merge(&self, other: &Self) -> (merged: Self) {
        ()
    }
}

impl Collidable for BoundingBox {
    type ChangeSet = ();

    open spec fn hitboxes(&self) -> Seq<BoundingBox> {
        seq![*self]
    }

    open spec fn offset(&self) -> Vec2 {
        Vec2 { x: 0, y: 0 }
    }

    fn get_hitboxes<'tick>(&'tick self) -> (boxes: &'tick [BoundingBox]) {
        core::slice::from_ref(self)
    }

    fn get_offset(&self) -> (offset: Vec2) {
        Vec2::zeros()
    }

    /// Collisions do nothing to a bare box.
    fn apply_changeset(&mut self, changes: ())
        ensures
            *final(self) == *old(self),
    {
    }

    /// A bare box does not move.
    fn handle_phys_update(&mut self)
        ensures
            *final(self) == *old(self),
    {
    }
}

/// The entity's hitboxes and offset are within the world's bounds.
pub open spec fn entity_in_world<T: Collidable>(entity: &T) -> bool {
    &&& entity.offset().within(WORLD_MAX as int)
    &&& forall|k: int|
        0 <= k < entity.hitboxes().len() ==> (#[trigger] entity.hitboxes()[k]).in_world()
}

impl BoxModel {
    /// The box moved by `by`.
    pub open spec fn translated(self, by: (int, int)) -> BoxModel {
        BoxModel { pos: (self.pos.0 + by.0, self.pos.1 + by.1), size: self.size, ori: self.ori }
    }
}

/// The first box, moved by `offset`, overlaps the second.
pub open spec fn hits_after_moving(offset: (int, int), pair: (BoundingBox, BoundingBox)) -> bool {
    pair.0@.translated(offset).collides(pair.1@)
}

/// The pairs of a box of `moved` and a box of `fixed` that overlap once the
/// first is moved by `offset`, row by row over `moved`.
pub open spec fn overlapping_pairs(
    offset: (int, int),
    moved: Seq<BoundingBox>,
    fixed: Seq<BoundingBox>,
) -> Seq<(BoundingBox, BoundingBox)> {
    product_pairs(moved, fixed).filter(
        |pair: (BoundingBox, BoundingBox)| hits_after_moving(offset, pair),
    )
}

/// The overlapping pairs between two lists of hitboxes, each pair with the
/// box of `hb0` first. Either the boxes of `hb0` are moved by `offset`, or,
/// if `offset_second` is set, those of `hb1`.
pub open spec fn hitbox_collisions(
    offset_second: bool,
    offset: (int, int),
    hb0: Seq<BoundingBox>,
    hb1: Seq<BoundingBox>,
) -> Seq<(BoundingBox, BoundingBox)> {
    if offset_second {
        overlapping_pairs(offset, hb1, hb0).map_values(
            |pair: (BoundingBox, BoundingBox)| flipped(pair),
        )
    } else {
        overlapping_pairs(offset, hb0, hb1)
    }
}

/// The boxes that a list of pairs of references points to.
pub open spec fn boxes_of(pairs: Seq<(&BoundingBox, &BoundingBox)>) -> Seq<
    (BoundingBox, BoundingBox),
> {
    pairs.map_values(|pair: (&BoundingBox, &BoundingBox)| (*pair.0, *pair.1))
}

/// All boxes of the list are within the world's bounds.
pub open spec fn boxes_in_world(boxes: Seq<BoundingBox>) -> bool {
    forall|k: int| 0 <= k < boxes.len() ==> (#[trigger] boxes[k]).in_world()
}

/// Filtering the first `k + 1` elements is filtering the first `k` and then
/// deciding on the next.
pub proof fn lemma_filter_take_step<A>(s: Seq<A>, pred: spec_fn(A) -> bool, k: int)
    requires
        0 <= k < s.len(),
    ensures
        s.take(k + 1).filter(pred) == if pred(s[k]) {
            s.take(k).filter(pred).push(s[k])
        } else {
            s.take(k).filter(pred)
        },
{
    reveal(Seq::filter);
    assert(s.take(k + 1).drop_last() =~= s.take(k));
}

/// Finds the overlapping pairs between two lists of hitboxes.
///
/// `offset` is applied to copies of the boxes of the first list, or of the
/// second list if `offset_second` is set; the lists themselves stay as they
/// are. Each pair that comes back holds the box of the first list first.
pub fn check_for_hb_collisions<'a>(
    offset_second: bool,
    offset: Vec2,
    hb: (&'a [BoundingBox], &'a [BoundingBox]),
) -> (hits: Vec<(&'a BoundingBox, &'a BoundingBox)>)
    requires
        offset.within(2 * WORLD_MAX),
        boxes_in_world(hb.0@),
        boxes_in_world(hb.1@),
    ensures
        boxes_of(hits@) == hitbox_collisions(offset_second, offset@, hb.0@, hb.1@),
{
    let (moved, fixed) = if offset_second {
        (hb.1, hb.0)
    } else {
        (hb.0, hb.1)
    };
    let mut moved_copies: Vec<(&'a BoundingBox, BoundingBox)> = Vec::new();
    let mut i: usize = 0;
    while i < moved.len()
        invariant
            i <= moved@.len(),
            moved_copies@.len() == i,
            offset.within(2 * WORLD_MAX),
            boxes_in_world(moved@),
            forall|k: int|
                0 <= k < i ==> {
                    &&& *(#[trigger] moved_copies@[k]).0 == moved@[k]
                    &&& moved_copies@[k].1@ == moved@[k]@.translated(offset@)
                    &&& moved_copies@[k].1.wf()
                    &&& moved_copies@[k].1.pos.within(3 * WORLD_MAX)
                    &&& -WORLD_MAX <= moved_copies@[k].1.ori <= WORLD_MAX
                },
        decreases moved@.len() - i,
    {
        let bb = &moved[i];
        assert(moved@[i as int].in_world());
        moved_copies.push((bb, bb.translated(offset)));
        i = i + 1;
    }
    let ghost all = product_pairs(moved@, fixed@);
    let ghost pred = |pair: (BoundingBox, BoundingBox)| hits_after_moving(offset@, pair);
    let mut hits: Vec<(&'a BoundingBox, &'a BoundingBox)> = Vec::new();
    let mut walk = product(moved_copies.as_slice(), fixed);
    proof {
        assert(all.take(0) =~= Seq::empty());
        reveal(Seq::filter);
        assert(boxes_of(hits@) =~= Seq::empty());
        assert(Seq::<(BoundingBox, BoundingBox)>::empty().map_values(
            |pair: (BoundingBox, BoundingBox)| flipped(pair),
        ) =~= Seq::empty());
    }
    loop
        invariant
            walk.wf(),
            walk.pairs() == product_pairs(moved_copies@, fixed@),
            0 <= walk.position() <= walk.pairs().len(),
            moved_copies@.len() == moved@.len(),
            all == product_pairs(moved@, fixed@),
            pred == |pair: (BoundingBox, BoundingBox)| hits_after_moving(offset@, pair),
            boxes_in_world(fixed@),
            forall|k: int|
                0 <= k < moved@.len() ==> {
                    &&& *(#[trigger] moved_copies@[k]).0 == moved@[k]
                    &&& moved_copies@[k].1@ == moved@[k]@.translated(offset@)
                    &&& moved_copies@[k].1.wf()
                    &&& moved_copies@[k].1.pos.within(3 * WORLD_MAX)
                    &&& -WORLD_MAX <= moved_copies@[k].1.ori <= WORLD_MAX
                },
            boxes_of(hits@) == if offset_second {
                all.take(walk.position()).filter(pred).map_values(
                    |pair: (BoundingBox, BoundingBox)| flipped(pair),
                )
            } else {
                all.take(walk.position()).filter(pred)
            },
        ensures
            walk.position() == all.len(),
            boxes_of(hits@) == if offset_second {
                all.take(walk.position()).filter(pred).map_values(
                    |pair: (BoundingBox, BoundingBox)| flipped(pair),
                )
            } else {
                all.take(walk.position()).filter(pred)
            },
        decreases walk.pairs().len() - walk.position(),
    {
        let ghost k = walk.position();
        let ghost before = boxes_of(hits@);
        match walk.next() {
            Some(pair) => {
                let (copy, other) = pair;
                proof {
                    lemma_product_pairs_covered(
                        moved_copies@,
                        fixed@,
                        k,
                    );
                    let m = fixed@.len() as int;
                    assert(*copy == moved_copies@[k / m]);
                    assert(*other == fixed@[k % m]);
                    assert(fixed@[k % m].in_world());
                    assert(all[k] == (moved@[k / m], fixed@[k % m]));
                    lemma_filter_take_step(all, pred, k);
                    assert(pred(all[k]) == copy.1@.collides(other@));
                }
                if BoundingBox::check_collision(&copy.1, other) {
                    if offset_second {
                        hits.push((other, copy.0));
                    } else {
                        hits.push((copy.0, other));
                    }
                    proof {
                        let kept = all.take(k).filter(pred);
                        if offset_second {
                            assert(boxes_of(hits@) =~= before.push(flipped(all[k])));
                            assert(kept.push(all[k]).map_values(
                                |pair: (BoundingBox, BoundingBox)| flipped(pair),
                            ) =~= kept.map_values(
                                |pair: (BoundingBox, BoundingBox)| flipped(pair),
                            ).push(flipped(all[k])));
                        } else {
                            assert(boxes_of(hits@) =~= before.push(all[k]));
                        }
                    }
                }
            },
            None => {
                break ;
            },
        }
    }
    proof {
        assert(all.take(all.len() as int) =~= all);
    }
    hits
}

/// The details of a collision between two entities of one snapshot.
pub struct Collision<'tick, T: Collidable, S: Collidable> {
    /// Where the two entities stand in the slices that were searched.
    pub ids: (usize, usize),
    /// The two entities.
    pub objs: (&'tick T, &'tick S),
    /// The hitboxes that overlap; the box on the left belongs to the entity
    /// on the left.
    pub overlapping_hitboxes: Vec<(&'tick BoundingBox, &'tick BoundingBox)>,
}

/// What a [`Collision`] says, without the references.
pub struct CollisionModel<T, S> {
    pub ids: (usize, usize),
    pub objs: (T, S),
    pub overlapping: Seq<(BoundingBox, BoundingBox)>,
}

impl<'tick, T: Collidable, S: Collidable> View for Collision<'tick, T, S> {
    type V = CollisionModel<T, S>;

    open spec fn view(&self) -> CollisionModel<T, S> {
        CollisionModel {
            ids: self.ids,
            objs: (*self.objs.0, *self.objs.1),
            overlapping: boxes_of(self.overlapping_hitboxes@),
        }
    }
}

impl<'tick, T: Collidable, S: Collidable> From<
    (((usize, &'tick T), (usize, &'tick S)), Vec<(&'tick BoundingBox, &'tick BoundingBox)>),
> for Collision<'tick, T, S> {
    /// Puts a record together from the two entities, each with its index,
    /// and the hitboxes that overlap.
    fn from(
        parts: (
            ((usize, &'tick T), (usize, &'tick S)),
            Vec<(&'tick BoundingBox, &'tick BoundingBox)>,
        ),
    ) -> (c: Self) {
        let (((id0, e0), (id1, e1)), hb_collisions) = parts;
        Collision { ids: (id0, id1), objs: (e0, e1), overlapping_hitboxes: hb_collisions }
    }
}

impl<'tick, T: Collidable, S: Collidable> vstd::std_specs::convert::FromSpecImpl<
    (((usize, &'tick T), (usize, &'tick S)), Vec<(&'tick BoundingBox, &'tick BoundingBox)>),
> for Collision<'tick, T, S> {
    open spec fn obeys_from_spec() -> bool {
        true
    }

    open spec fn from_spec(
        parts: (
            ((usize, &'tick T), (usize, &'tick S)),
            Vec<(&'tick BoundingBox, &'tick BoundingBox)>,
        ),
    ) -> Self {
        Collision {
            ids: (parts.0.0.0, parts.0.1.0),
            objs: (parts.0.0.1, parts.0.1.1),
            overlapping_hitboxes: parts.1,
        }
    }
}

/// The second entity has fewer hitboxes than the first, so its boxes are the
/// ones to move.
pub open spec fn should_offset_second<T: Collidable, S: Collidable>(first: &T, second: &S) -> bool {
    first.hitboxes().len() > second.hitboxes().len()
}

/// The translation that brings the hitboxes that are moved into the
/// coordinates of the other entity.
pub open spec fn relative_offset<T: Collidable, S: Collidable>(first: &T, second: &S) -> (
    int,
    int,
) {
    if should_offset_second(first, second) {
        (second.offset().x - first.offset().x, second.offset().y - first.offset().y)
    } else {
        (first.offset().x - second.offset().x, first.offset().y - second.offset().y)
    }
}

/// The overlapping pairs of hitboxes between two entities, each pair with
/// the box of `first` first.
pub open spec fn entity_hits<T: Collidable, S: Collidable>(first: &T, second: &S) -> Seq<
    (BoundingBox, BoundingBox),
> {
    hitbox_collisions(
        should_offset_second(first, second),
        relative_offset(first, second),
        first.hitboxes(),
        second.hitboxes(),
    )
}

/// The record for the entities `set1[ids.0]` and `set2[ids.1]`, whether or
/// not any of their hitboxes overlap.
pub open spec fn candidate_record<T: Collidable, S: Collidable>(
    set1: Seq<T>,
    set2: Seq<S>,
    ids: (usize, usize),
) -> CollisionModel<T, S> {
    CollisionModel {
        ids,
        objs: (set1[ids.0 as int], set2[ids.1 as int]),
        overlapping: entity_hits(&set1[ids.0 as int], &set2[ids.1 as int]),
    }
}

/// The records of the candidate pairs, in their order, without those in
/// which no hitboxes overlap.
pub open spec fn collisions_between<T: Collidable, S: Collidable>(
    set1: Seq<T>,
    set2: Seq<S>,
    candidates: Seq<(usize, usize)>,
) -> Seq<CollisionModel<T, S>> {
    candidates.map_values(|ids: (usize, usize)| candidate_record(set1, set2, ids)).filter(
        |c: CollisionModel<T, S>| c.overlapping.len() > 0,
    )
}

/// The indices `0, 1, .., n - 1`.
pub open spec fn ids_upto(n: nat) -> Seq<usize> {
    Seq::new(n, |k: int| k as usize)
}

/// What a list of records says.
pub open spec fn records_of<'tick, T: Collidable, S: Collidable>(
    collisions: Seq<Collision<'tick, T, S>>,
) -> Seq<CollisionModel<T, S>> {
    collisions.map_values(|c: Collision<'tick, T, S>| c@)
}

/// Tests one pair of entities and returns their record if any of their
/// hitboxes overlap.
fn collide_entities<'tick, T: Collidable, S: Collidable>(
    first: (usize, &'tick T),
    second: (usize, &'tick S),
) -> (r: Option<Collision<'tick, T, S>>)
    requires
        entity_in_world(first.1),
        entity_in_world(second.1),
    ensures
        match r {
            Some(c) => {
                &&& c.ids == (first.0, second.0)
                &&& c.objs == (first.1, second.1)
                &&& c@.overlapping == entity_hits(first.1, second.1)
                &&& c@.overlapping.len() > 0
            },
            None => entity_hits(first.1, second.1).len() == 0,
        },
{
    let hb0 = first.1.get_hitboxes();
    let hb1 = second.1.get_hitboxes();
    // Moving the shorter list of hitboxes is the cheaper choice.
    let offset_second = hb0.len() > hb1.len();
    let offset = if offset_second {
        second.1.get_offset().minus(first.1.get_offset())
    } else {
        first.1.get_offset().minus(second.1.get_offset())
    };
    let hb_collisions = check_for_hb_collisions(offset_second, offset, (hb0, hb1));
    if hb_collisions.len() == 0 {
        None
    } else {
        Some(Collision::from(((first, second), hb_collisions)))
    }
}

/// The indices of a slice of length `n`, as a vector.
fn index_vec(n: usize) -> (ids: Vec<usize>)
    ensures
        ids@ == ids_upto(n as nat),
{
    let mut ids: Vec<usize> = Vec::new();
    let mut i: usize = 0;
    while i < n
        invariant
            i <= n,
            ids@.len() == i,
            forall|k: int| 0 <= k < i ==> #[trigger] ids@[k] == k,
        decreases n - i,
    {
        ids.push(i);
        i = i + 1;
    }
    assert(ids@ =~= ids_upto(n as nat));
    ids
}

/// One more candidate has been decided: the records so far either grow by
/// the candidate's record or stay.
proof fn lemma_collisions_step<T: Collidable, S: Collidable>(
    set1: Seq<T>,
    set2: Seq<S>,
    candidates: Seq<(usize, usize)>,
    k: int,
)
    requires
        0 <= k < candidates.len(),
    ensures
        collisions_between(set1, set2, candidates.take(k + 1)) == if candidate_record(
            set1,
            set2,
            candidates[k],
        ).overlapping.len() > 0 {
            collisions_between(set1, set2, candidates.take(k)).push(
                candidate_record(set1, set2, candidates[k]),
            )
        } else {
            collisions_between(set1, set2, candidates.take(k))
        },
{
    let f = |ids: (usize, usize)| candidate_record(set1, set2, ids);
    let g = |c: CollisionModel<T, S>| c.overlapping.len() > 0;
    let mapped = candidates.map_values(f);
    assert(candidates.take(k + 1).map_values(f) =~= mapped.take(k + 1));
    assert(candidates.take(k).map_values(f) =~= mapped.take(k));
    lemma_filter_take_step(mapped, g, k);
}

/// Check for collisions within a slice of entities: every pair of two
/// different entities is tested once, the one with the lower index first.
pub fn check_for_collisions<'tick, T: Collidable>(entities: &'tick [T]) -> (collisions: Vec<
    Collision<'tick, T, T>,
>)
    requires
        forall|i: int| 0 <= i < entities@.len() ==> entity_in_world(&#[trigger] entities@[i]),
    ensures
        records_of(collisions@) == collisions_between(
            entities@,
            entities@,
            unique_pairs(ids_upto(entities@.len())),
        ),
        forall|k: int|
            0 <= k < collisions@.len() ==> {
                &&& (#[trigger] collisions@[k]).ids.0 < collisions@[k].ids.1 < entities@.len()
                &&& *collisions@[k].objs.0 == entities@[collisions@[k].ids.0 as int]
                &&& *collisions@[k].objs.1 == entities@[collisions@[k].ids.1 as int]
                &&& collisions@[k].overlapping_hitboxes@.len() > 0
            },
{
    let ids = index_vec(entities.len());
    let ghost candidates = unique_pairs(ids@);
    let mut walk = unique_square(ids.as_slice());
    let mut collisions: Vec<Collision<'tick, T, T>> = Vec::new();
    proof {
        walk.lemma_position_in_range();
        assert(candidates.take(0) =~= Seq::empty());
        reveal(Seq::filter);
        assert(records_of(collisions@) =~= Seq::empty());
        assert(collisions_between(entities@, entities@, candidates.take(0)) =~= Seq::empty());
    }
    loop
        invariant
            walk.wf(),
            walk.pairs() == candidates,
            candidates == unique_pairs(ids@),
            ids@ == ids_upto(entities@.len()),
            entities@.len() <= usize::MAX,
            0 <= walk.position() <= candidates.len(),
            forall|i: int| 0 <= i < entities@.len() ==> entity_in_world(&#[trigger] entities@[i]),
            records_of(collisions@) == collisions_between(
                entities@,
                entities@,
                candidates.take(walk.position()),
            ),
            forall|k: int|
                0 <= k < collisions@.len() ==> {
                    &&& (#[trigger] collisions@[k]).ids.0 < collisions@[k].ids.1 < entities@.len()
                    &&& *collisions@[k].objs.0 == entities@[collisions@[k].ids.0 as int]
                    &&& *collisions@[k].objs.1 == entities@[collisions@[k].ids.1 as int]
                    &&& collisions@[k].overlapping_hitboxes@.len() > 0
                },
        ensures
            walk.position() == candidates.len(),
            records_of(collisions@) == collisions_between(
                entities@,
                entities@,
                candidates.take(walk.position()),
            ),
        decreases candidates.len() - walk.position(),
    {
        let ghost k = walk.position();
        let ghost before = records_of(collisions@);
        match walk.next() {
            Some(pair) => {
                let id0: usize = *pair.0;
                let id1: usize = *pair.1;
                proof {
                    let n = ids@.len() as int;
                    lemma_pair_rows(ids@, ids@.len());
                    let (a, b) = lemma_pair_rows_covered(n, n, k);
                    lemma_unique_pairs_at(ids@, a, b);
                    assert((id0, id1) == candidates[k]);
                    assert(candidates[k] == (ids@[a], ids@[b]));
                    assert(ids_upto(entities@.len())[a] == a && ids_upto(entities@.len())[b] == b);
                    lemma_collisions_step(entities@, entities@, candidates, k);
                }
                match collide_entities((id0, &entities[id0]), (id1, &entities[id1])) {
                    Some(c) => {
                        let ghost record = c@;
                        collisions.push(c);
                        proof {
                            assert(record == candidate_record(entities@, entities@, (id0, id1)));
                            assert(records_of(collisions@) =~= before.push(record));
                        }
                    },
                    None => {},
                }
            },
            None => {
                break ;
            },
        }
    }
    proof {
        assert(candidates.take(candidates.len() as int) =~= candidates);
    }
    collisions
}

/// Check for collisions between two slices of entities: every entity of
/// `set1` is tested against every entity of `set2`, row by row.
pub fn check_for_collision_pairs<'tick, T: Collidable, S: Collidable>(
    set1: &'tick [T],
    set2: &'tick [S],
) -> (collisions: Vec<Collision<'tick, T, S>>)
    requires
        forall|i: int| 0 <= i < set1@.len() ==> entity_in_world(&#[trigger] set1@[i]),
        forall|i: int| 0 <= i < set2@.len() ==> entity_in_world(&#[trigger] set2@[i]),
    ensures
        records_of(collisions@) == collisions_between(
            set1@,
            set2@,
            product_pairs(ids_upto(set1@.len()), ids_upto(set2@.len())),
        ),
        forall|k: int|
            0 <= k < collisions@.len() ==> {
                &&& (#[trigger] collisions@[k]).ids.0 < set1@.len()
                &&& collisions@[k].ids.1 < set2@.len()
                &&& *collisions@[k].objs.0 == set1@[collisions@[k].ids.0 as int]
                &&& *collisions@[k].objs.1 == set2@[collisions@[k].ids.1 as int]
                &&& collisions@[k].overlapping_hitboxes@.len() > 0
            },
{
    let ids1 = index_vec(set1.len());
    let ids2 = index_vec(set2.len());
    let ghost candidates = product_pairs(ids1@, ids2@);
    let mut walk = product(ids1.as_slice(), ids2.as_slice());
    let mut collisions: Vec<Collision<'tick, T, S>> = Vec::new();
    proof {
        walk.lemma_position_in_range();
        assert(candidates.take(0) =~= Seq::empty());
        reveal(Seq::filter);
        assert(records_of(collisions@) =~= Seq::empty());
        assert(collisions_between(set1@, set2@, candidates.take(0)) =~= Seq::empty());
    }
    loop
        invariant
            walk.wf(),
            walk.pairs() == candidates,
            candidates == product_pairs(ids1@, ids2@),
            ids1@ == ids_upto(set1@.len()),
            ids2@ == ids_upto(set2@.len()),
            set1@.len() <= usize::MAX,
            set2@.len() <= usize::MAX,
            0 <= walk.position() <= candidates.len(),
            forall|i: int| 0 <= i < set1@.len() ==> entity_in_world(&#[trigger] set1@[i]),
            forall|i: int| 0 <= i < set2@.len() ==> entity_in_world(&#[trigger] set2@[i]),
            records_of(collisions@) == collisions_between(
                set1@,
                set2@,
                candidates.take(walk.position()),
            ),
            forall|k: int|
                0 <= k < collisions@.len() ==> {
                    &&& (#[trigger] collisions@[k]).ids.0 < set1@.len()
                    &&& collisions@[k].ids.1 < set2@.len()
                    &&& *collisions@[k].objs.0 == set1@[collisions@[k].ids.0 as int]
                    &&& *collisions@[k].objs.1 == set2@[collisions@[k].ids.1 as int]
                    &&& collisions@[k].overlapping_hitboxes@.len() > 0
                },
        ensures
            walk.position() == candidates.len(),
            records_of(collisions@) == collisions_between(
                set1@,
                set2@,
                candidates.take(walk.position()),
            ),
        decreases candidates.len() - walk.position(),
    {
        let ghost k = walk.position();
        let ghost before = records_of(collisions@);
        match walk.next() {
            Some(pair) => {
                let id0: usize = *pair.0;
                let id1: usize = *pair.1;
                proof {
                    lemma_product_pairs_covered(ids1@, ids2@, k);
                    lemma_collisions_step(set1@, set2@, candidates, k);
                }
                match collide_entities((id0, &set1[id0]), (id1, &set2[id1])) {
                    Some(c) => {
                        let ghost record = c@;
                        collisions.push(c);
                        proof {
                            assert(record == candidate_record(set1@, set2@, (id0, id1)));
                            assert(records_of(collisions@) =~= before.push(record));
                        }
                    },
                    None => {},
                }
            },
            None => {
                break ;
            },
        }
    }
    proof {
        assert(candidates.take(candidates.len() as int) =~= candidates);
    }
    collisions
}

} // verus!
