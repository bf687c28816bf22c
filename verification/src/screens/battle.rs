//! The fight itself: fighters, the arena they stand in, and the tick that
//! moves them.

pub mod arena;
pub mod interactions;
pub mod platform;
pub mod player;

use vstd::prelude::*;
use crate::inputs::{HandleInput, Input, Keyboard};
use crate::physics::collision::{
    check_for_collision_pairs, check_for_collisions, collisions_between, ids_upto,
    lemma_filter_take_step, records_of, Collidable, CollisionModel, Mergeable,
};
use crate::physics::vector::Vec2;
use crate::screens::battle::arena::Arena;
use crate::screens::battle::interactions::{
    handle_player_platform_collision, handle_player_player_collision,
};
use crate::screens::battle::platform::Platform;
use crate::screens::battle::player::inputs::actions_of_keys;
use crate::screens::battle::player::{test_player, test_player_model, Changes, Player};
use crate::util::cartesian::product_pairs;
use crate::util::vecs::reversed;

verus! {

/// The data specific to each battle.
/// Every battle between players will be played in an arena.
#[derive(Debug)]
pub struct BattleData {
    pub players: Vec<Player>,
    pub arena: Arena,
    /// The force that pulls every fighter down in every tick.
    pub gravity: Vec2,
}

/// Tells whether a record is about fighter `player`.
pub open spec fn is_about(player: int) -> spec_fn(CollisionModel<Player, Platform>) -> bool {
    |c: CollisionModel<Player, Platform>| c.ids.0 == player
}

/// Reads the platform off a record.
pub open spec fn platform_of() -> spec_fn(CollisionModel<Player, Platform>) -> usize {
    |c: CollisionModel<Player, Platform>| c.ids.1
}

/// The platforms that the records say fighter `player` touches, in the
/// order of the records.
pub open spec fn contacts_of(records: Seq<CollisionModel<Player, Platform>>, player: int) -> Seq<
    usize,
> {
    records.filter(is_about(player)).map_values(platform_of())
}

/// The collisions between fighters and platforms: every fighter against
/// every platform, fighter by fighter.
pub open spec fn platform_collisions(players: Seq<Player>, platforms: Seq<Platform>) -> Seq<
    CollisionModel<Player, Platform>,
> {
    collisions_between(
        players,
        platforms,
        product_pairs(ids_upto(players.len()), ids_upto(platforms.len())),
    )
}

/// One more record has been handled: the contacts of a fighter grow by the
/// record's platform if the record is about that fighter.
pub proof fn lemma_contacts_step(
    records: Seq<CollisionModel<Player, Platform>>,
    k: int,
    player: int,
)
    requires
        0 <= k < records.len(),
    ensures
        contacts_of(records.take(k + 1), player) == if records[k].ids.0 == player {
            contacts_of(records.take(k), player).push(records[k].ids.1)
        } else {
            contacts_of(records.take(k), player)
        },
{
    let pred = is_about(player);
    lemma_filter_take_step(records, pred, k);
    if records[k].ids.0 == player {
        let kept = records.take(k).filter(pred);
        assert(kept.push(records[k]).map_values(platform_of()) =~= kept.map_values(
            platform_of(),
        ).push(records[k].ids.1));
    }
}

impl BattleData {
    /// Every fighter and every platform is within the world's bounds.
    pub open spec fn wf(&self) -> bool {
        &&& forall|i: int|
            0 <= i < self.players@.len() ==> (#[trigger] self.players@[i])@.in_world()
        &&& forall|j: int|
            0 <= j < self.arena.platforms@.len() ==> (
            #[trigger] self.arena.platforms@[j]).body.in_world()
    }

    /// `after` is the battle one tick later: gravity and arena are the
    /// same, and every fighter has applied gravity and the platforms it
    /// touched at the start of the tick, and has moved.
    pub open spec fn ticked(&self, after: &BattleData) -> bool {
        &&& after.gravity == self.gravity
        &&& after.arena.name == self.arena.name
        &&& after.arena.platforms@ == self.arena.platforms@
        &&& after.players@.len() == self.players@.len()
        &&& forall|i: int|
            0 <= i < self.players@.len() ==> (#[trigger] after.players@[i])@
                == self.players@[i]@.applied(
                self.gravity,
                contacts_of(platform_collisions(self.players@, self.arena.platforms@), i),
            ).stepped()
    }

    /// `after` is the battle once every fighter has carried out the actions
    /// that the keyboard asks of it.
    pub open spec fn reacted(&self, after: &BattleData, keyboard: &Keyboard) -> bool {
        &&& after.gravity == self.gravity
        &&& after.arena == self.arena
        &&& after.players@.len() == self.players@.len()
        &&& forall|i: int|
            0 <= i < self.players@.len() ==> (#[trigger] after.players@[i])@
                == self.players@[i]@.after_actions(
                actions_of_keys(
                    self.players@[i]@.inputs.continuous,
                    keyboard.pressed@,
                    keyboard.mods,
                ),
            )
    }

    /// The battle in `arena` with one test fighter and the usual gravity of
    /// a hundredth of a unit per tick.
    pub fn load_first_arena_and_test_player(arena: Arena) -> (battle: BattleData)
        requires
            forall|j: int|
                0 <= j < arena.platforms@.len() ==> (#[trigger] arena.platforms@[j]).body.in_world(),
        ensures
            battle.wf(),
            battle.arena == arena,
            battle.gravity == (Vec2 { x: 0, y: 10_000 }),
            battle.players@.len() == 1,
            battle.players@[0]@ == test_player_model(),
    {
        let mut players: Vec<Player> = Vec::new();
        players.push(test_player());
        BattleData { players, arena, gravity: Vec2::new(0, 10_000) }
    }

    /// One tick of the battle.
    ///
    /// Collisions are searched on the state the tick starts from. Every
    /// fighter then receives one changeset, gravity and the platforms it
    /// touches, applies it, and moves. Platforms stay as they are.
    pub fn handle_update(&mut self)
        requires
            old(self).wf(),
        ensures
            final(self).wf(),
            old(self).ticked(final(self)),
    {
        let n = self.players.len();
        let ghost start = self.players@;
        let ghost records = platform_collisions(self.players@, self.arena.platforms@);

        // Find changes.
        let mut player_changesets: Vec<Changes> = Vec::new();
        let mut platform_changesets: Vec<Option<()>> = Vec::new();
        let mut i: usize = 0;
        while i < n
            invariant
                i <= n,
                player_changesets@.len() == i,
                forall|p: int|
                    0 <= p < i ==> {
                        &&& (#[trigger] player_changesets@[p]).force == self.gravity
                        &&& player_changesets@[p].contacted_platforms@ == Seq::<usize>::empty()
                    },
            decreases n - i,
        {
            player_changesets.push(
                Changes { force: self.gravity, contacted_platforms: Vec::new() },
            );
            i = i + 1;
        }
        let mut j: usize = 0;
        while j < self.arena.platforms.len()
            invariant
                j <= self.arena.platforms@.len(),
                platform_changesets@.len() == j,
                forall|q: int| 0 <= q < j ==> (#[trigger] platform_changesets@[q]) is None,
            decreases self.arena.platforms@.len() - j,
        {
            platform_changesets.push(None);
            j = j + 1;
        }

        let collisions = check_for_collision_pairs(
            self.players.as_slice(),
            self.arena.platforms.as_slice(),
        );
        let ghost found = collisions@;
        assert(records_of(found) == records);
        let mut pending = reversed(collisions);
        proof {
            assert(records.take(0) =~= Seq::empty());
            reveal(Seq::filter);
            assert forall|p: int| 0 <= p < n implies contacts_of(records.take(0), p)
                =~= Seq::<usize>::empty() by {}
        }
        while pending.len() > 0
            invariant
                found.len() == records.len(),
                records == records_of(found),
                pending@.len() <= found.len(),
                pending@ == found.reverse().take(pending@.len() as int),
                player_changesets@.len() == n,
                platform_changesets@.len() == self.arena.platforms@.len(),
                forall|k: int|
                    0 <= k < found.len() ==> (#[trigger] found[k]).ids.0 < n && found[k].ids.1
                        < self.arena.platforms@.len(),
                forall|q: int|
                    0 <= q < platform_changesets@.len() ==> (
                    #[trigger] platform_changesets@[q]) is None,
                forall|p: int|
                    0 <= p < n ==> {
                        &&& (#[trigger] player_changesets@[p]).force == self.gravity
                        &&& player_changesets@[p].contacted_platforms@ == contacts_of(
                            records.take(found.len() - pending@.len()),
                            p,
                        )
                    },
            decreases pending@.len(),
        {
            let ghost k = found.len() - pending@.len();
            let ghost before = player_changesets@;
            match pending.pop() {
                Some(c) => {
                    assert(c == found[k]);
                    assert(records[k] == found[k]@);
                    let (player_id, platform_id) = c.ids;
                    let (player_changeset, platform_changeset) =
                        handle_player_platform_collision(c);
                    if let Some(player_changeset) = player_changeset {
                        let merged = player_changesets[player_id].merge(&player_changeset);
                        assert(merged.contacted_platforms@ =~= before[player_id as int].contacted_platforms@.push(
                            platform_id,
                        ));
                        player_changesets.set(player_id, merged);
                    }
                    if let Some(platform_changeset) = platform_changeset {
                        let merged = match platform_changesets[platform_id] {
                            Some(changeset) => Some(changeset.merge(&platform_changeset)),
                            None => Some(platform_changeset),
                        };
                        platform_changesets.set(platform_id, merged);
                    }
                    proof {
                        assert forall|p: int| 0 <= p < n implies (
                        #[trigger] player_changesets@[p]).contacted_platforms@ == contacts_of(
                            records.take(k + 1),
                            p,
                        ) by {
                            lemma_contacts_step(records, k, p);
                        }
                    }
                },
                None => {},
            }
        }
        assert(records.take(found.len() as int) =~= records);

        let collisions = check_for_collisions(self.players.as_slice());
        let mut pending = reversed(collisions);
        while pending.len() > 0
            invariant
                player_changesets@.len() == n,
                forall|k: int|
                    0 <= k < pending@.len() ==> (#[trigger] pending@[k]).ids.0 < n
                        && pending@[k].ids.1 < n,
                forall|p: int|
                    0 <= p < n ==> {
                        &&& (#[trigger] player_changesets@[p]).force == self.gravity
                        &&& player_changesets@[p].contacted_platforms@ == contacts_of(records, p)
                    },
            decreases pending@.len(),
        {
            match pending.pop() {
                Some(c) => {
                    let (p0_id, p1_id) = c.ids;
                    let (changeset0, changeset1) = handle_player_player_collision(c);
                    if let Some(changeset0) = changeset0 {
                        let merged = player_changesets[p0_id].merge(&changeset0);
                        player_changesets.set(p0_id, merged);
                    }
                    if let Some(changeset1) = changeset1 {
                        let merged = player_changesets[p1_id].merge(&changeset1);
                        player_changesets.set(p1_id, merged);
                    }
                },
                None => {},
            }
        }

        // Apply changes, last fighter first: the changesets are taken off
        // the end of their list.
        let mut idx: usize = n;
        while idx > 0
            invariant
                idx <= n,
                self.players@.len() == n,
                start.len() == n,
                player_changesets@.len() == idx,
                self.gravity == old(self).gravity,
                self.arena.name == old(self).arena.name,
                self.arena.platforms@ == old(self).arena.platforms@,
                forall|p: int|
                    0 <= p < idx ==> {
                        &&& (#[trigger] player_changesets@[p]).force == self.gravity
                        &&& player_changesets@[p].contacted_platforms@ == contacts_of(records, p)
                    },
                forall|p: int| 0 <= p < idx ==> (#[trigger] self.players@[p]) == start[p],
                forall|p: int|
                    idx <= p < n ==> (#[trigger] self.players@[p])@ == start[p]@.applied(
                        self.gravity,
                        contacts_of(records, p),
                    ),
            decreases idx,
        {
            idx = idx - 1;
            match player_changesets.pop() {
                Some(changeset) => {
                    self.players[idx].apply_changeset(changeset);
                },
                None => {},
            }
        }
        let mut idx: usize = self.arena.platforms.len();
        while idx > 0
            invariant
                idx <= self.arena.platforms@.len(),
                platform_changesets@.len() == idx,
                self.gravity == old(self).gravity,
                self.arena.name == old(self).arena.name,
                self.arena.platforms@ == old(self).arena.platforms@,
                self.players@.len() == n,
                forall|q: int|
                    0 <= q < platform_changesets@.len() ==> (
                    #[trigger] platform_changesets@[q]) is None,
                forall|p: int|
                    0 <= p < n ==> (#[trigger] self.players@[p])@ == start[p]@.applied(
                        self.gravity,
                        contacts_of(records, p),
                    ),
            decreases idx,
        {
            idx = idx - 1;
            match platform_changesets.pop() {
                Some(Some(changeset)) => {
                    self.arena.platforms[idx].apply_changeset(changeset);
                },
                _ => (),
            }
        }

        // Advance time.
        let mut idx: usize = 0;
        while idx < n
            invariant
                idx <= n,
                self.players@.len() == n,
                start.len() == n,
                self.gravity == old(self).gravity,
                self.arena.name == old(self).arena.name,
                self.arena.platforms@ == old(self).arena.platforms@,
                forall|p: int|
                    idx <= p < n ==> (#[trigger] self.players@[p])@ == start[p]@.applied(
                        self.gravity,
                        contacts_of(records, p),
                    ),
                forall|p: int|
                    0 <= p < idx ==> (#[trigger] self.players@[p])@ == start[p]@.applied(
                        self.gravity,
                        contacts_of(records, p),
                    ).stepped(),
            decreases n - idx,
        {
            self.players[idx].handle_phys_update();
            idx = idx + 1;
        }
        let mut idx: usize = 0;
        while idx < self.arena.platforms.len()
            invariant
                idx <= self.arena.platforms@.len(),
                self.gravity == old(self).gravity,
                self.arena.name == old(self).arena.name,
                self.arena.platforms@ == old(self).arena.platforms@,
                self.players@.len() == n,
                forall|p: int|
                    0 <= p < n ==> (#[trigger] self.players@[p])@ == start[p]@.applied(
                        self.gravity,
                        contacts_of(records, p),
                    ).stepped(),
            decreases self.arena.platforms@.len() - idx,
        {
            self.arena.platforms[idx].handle_phys_update();
            idx = idx + 1;
        }
    }
}

impl HandleInput for BattleData {
    /// Every fighter reacts to the keyboard, each according to its own keys.
    fn handle_input(&mut self, keyboard: &Keyboard, fire_once_key_buffer: &Vec<Input>)
        ensures
            old(self).reacted(final(self), keyboard),
            old(self).wf() ==> final(self).wf(),
    {
        let n = self.players.len();
        let ghost start = self.players@;
        let mut idx: usize = 0;
        while idx < n
            invariant
                idx <= n,
                self.players@.len() == n,
                start.len() == n,
                self.gravity == old(self).gravity,
                self.arena == old(self).arena,
                forall|p: int| idx <= p < n ==> (#[trigger] self.players@[p]) == start[p],
                forall|p: int|
                    0 <= p < idx && start[p]@.in_world() ==> (#[trigger] self.players@[p])@.in_world(),
                forall|p: int|
                    0 <= p < idx ==> (#[trigger] self.players@[p])@ == start[p]@.after_actions(
                        actions_of_keys(
                            start[p]@.inputs.continuous,
                            keyboard.pressed@,
                            keyboard.mods,
                        ),
                    ),
            decreases n - idx,
        {
            proof {
                if start[idx as int]@.in_world() {
                    start[idx as int]@.lemma_after_actions_in_world(
                        actions_of_keys(
                            start[idx as int]@.inputs.continuous,
                            keyboard.pressed@,
                            keyboard.mods,
                        ),
                    );
                }
            }
            self.players[idx].handle_input(keyboard, fire_once_key_buffer);
            idx = idx + 1;
        }
    }
}

} // verus!
