//! A fighter.

pub mod action;
pub mod inputs;
pub mod meta;
pub mod stance;

use vstd::prelude::*;
use vstd::multiset::Multiset;
use crate::inputs::{HandleInput, Input, Keyboard, KEY_A, KEY_D, MODS_NONE};
use crate::physics::collision::{boxes_in_world, Collidable, Mergeable};
use crate::physics::obb::BoundingBox;
use crate::physics::vector::{Vec2, ONE, WORLD_MAX};
use crate::screens::battle::player::action::Action;
use crate::screens::battle::player::inputs::{
    actions_of_keys, ContinuousScheme, FireOnceScheme, InputScheme,
};
use crate::screens::battle::player::meta::{Race, Stats};
use crate::screens::battle::player::stance::{GroundStance, HorizontalStance, VerticalStance};

verus! {

/// The current frame being run. Allows for approximately four seconds of frames.
pub type FrameNumber = u8;

/// What the collisions of one tick do to a fighter: a force, and the
/// platforms the fighter touches.
///
/// Forces add up; lists of platforms are concatenated. Neither favours one
/// collision over another, so opposing pushes cancel and a platform touched
/// in two collisions is listed twice.
#[derive(Debug)]
pub struct Changes {
    pub force: Vec2,
    pub contacted_platforms: Vec<usize>,
}

/// What a [`Changes`] stands for: a force over the unbounded integers and
/// the bag of platforms touched.
pub struct ChangesModel {
    pub force: (int, int),
    pub contacted: Multiset<usize>,
}

impl ChangesModel {
    /// No force and no platform.
    pub open spec fn neutral() -> ChangesModel {
        ChangesModel { force: (0, 0), contacted: Multiset::empty() }
    }

    /// The forces added, the platforms of both.
    pub open spec fn merged(self, other: ChangesModel) -> ChangesModel {
        ChangesModel {
            force: (self.force.0 + other.force.0, self.force.1 + other.force.1),
            contacted: self.contacted.add(other.contacted),
        }
    }

    /// Merging does not depend on how three changesets are grouped.
    pub proof fn lemma_merged_associative(self, b: ChangesModel, c: ChangesModel)
        ensures
            self.merged(b).merged(c) == self.merged(b.merged(c)),
    {
        assert(self.contacted.add(b.contacted).add(c.contacted) =~= self.contacted.add(
            b.contacted.add(c.contacted),
        ));
    }

    /// Merging does not depend on the order of two changesets.
    pub proof fn lemma_merged_commutative(self, other: ChangesModel)
        ensures
            self.merged(other) == other.merged(self),
    {
        assert(self.contacted.add(other.contacted) =~= other.contacted.add(self.contacted));
    }

    /// Merging with the neutral changeset changes nothing.
    pub proof fn lemma_merged_neutral(self)
        ensures
            self.merged(ChangesModel::neutral()) == self,
            ChangesModel::neutral().merged(self) == self,
    {
        assert(self.contacted.add(Multiset::empty()) =~= self.contacted);
        assert(Multiset::empty().add(self.contacted) =~= self.contacted);
    }
}

impl View for Changes {
    type V = ChangesModel;

    open spec fn view(&self) -> ChangesModel {
        ChangesModel { force: self.force@, contacted: self.contacted_platforms@.to_multiset() }
    }
}

impl Default for Changes {
    /// The changeset of a tick without collisions.
    fn default() -> (changes: Self)
        ensures
            changes.force == (Vec2 { x: 0, y: 0 }),
            changes.contacted_platforms@ == Seq::<usize>::empty(),
            changes@ == ChangesModel::neutral(),
    {
        let changes = Changes { force: Vec2::zeros(), contacted_platforms: Vec::new() };
        proof {
            changes.contacted_platforms@.to_multiset_ensures();
            assert(changes.contacted_platforms@.to_multiset() =~= Multiset::empty());
        }
        changes
    }
}

impl Clone for Changes {
    fn clone(&self) -> (copy: Self)
        ensures
            copy.force == self.force,
            copy.contacted_platforms@ == self.contacted_platforms@,
    {
        Changes { force: self.force, contacted_platforms: copy_ids(&self.contacted_platforms) }
    }
}

impl Mergeable for Changes {
    /// The sum of the forces fits the scalar type.
    open spec fn can_merge(&self, other: &Self) -> bool {
        &&& i64::MIN <= self.force.x + other.force.x <= i64::MAX
        &&& i64::MIN <= self.force.y + other.force.y <= i64::MAX
    }

    fn merge(&self, other: &Self) -> (merged: Self)
        ensures
            merged.force@ == (self.force.x + other.force.x, self.force.y + other.force.y),
            merged.contacted_platforms@ == self.contacted_platforms@ + other.contacted_platforms@,
            merged@ == self@.merged(other@),
    {
        let mut contacted_platforms = copy_ids(&self.contacted_platforms);
        let mut i: usize = 0;
        while i < other.contacted_platforms.len()
            invariant
                i <= other.contacted_platforms@.len(),
                contacted_platforms@ == self.contacted_platforms@
                    + other.contacted_platforms@.take(i as int),
            decreases other.contacted_platforms@.len() - i,
        {
            contacted_platforms.push(other.contacted_platforms[i]);
            proof {
                assert(other.contacted_platforms@.take(i + 1) =~= other.contacted_platforms@.take(
                    i as int,
                ).push(other.contacted_platforms@[i as int]));
            }
            i = i + 1;
        }
        proof {
            assert(other.contacted_platforms@.take(i as int) =~= other.contacted_platforms@);
            vstd::seq_lib::lemma_multiset_commutative(
                self.contacted_platforms@,
                other.contacted_platforms@,
            );
        }
        Changes { force: self.force.plus(other.force), contacted_platforms }
    }
}

/// A copy of a list of platform ids.
fn copy_ids(ids: &Vec<usize>) -> (copy: Vec<usize>)
    ensures
        copy@ == ids@,
{
    let mut copy: Vec<usize> = Vec::new();
    let mut i: usize = 0;
    while i < ids.len()
        invariant
            i <= ids@.len(),
            copy@ == ids@.take(i as int),
        decreases ids@.len() - i,
    {
        copy.push(ids[i]);
        proof {
            assert(ids@.take(i + 1) =~= ids@.take(i as int).push(ids@[i as int]));
        }
        i = i + 1;
    }
    assert(ids@.take(i as int) =~= ids@);
    copy
}

/// How far one walking action moves a fighter: two units.
pub const WALK_STEP: i64 = 2_000_000;

/// A fighter: its hitboxes, where it is and how it moves, and what it
/// remembers of the platforms it touched.
#[derive(Debug)]
pub struct Player {
    bboxes: Vec<BoundingBox>,
    /// The position of the character.
    position: Vec2,
    /// The velocity of the character.
    velocity: Vec2,
    /// The acceleration of the character.
    acceleration: Vec2,
    /// Animation variations.
    stance: (VerticalStance, HorizontalStance),
    /// Animation state.
    movement: (Action, FrameNumber),
    /// The race of the player character.
    race: Race,
    /// Various stats.
    stats: Stats,
    /// The input options allowed for a player.
    inputs: InputScheme,
    /// Tracking data for platform fall-through.
    platforms_to_ignore: Vec<usize>,
    touched_platforms: Vec<usize>,
}

/// What a [`Player`] holds, as plain values.
pub struct PlayerModel {
    pub bboxes: Seq<BoundingBox>,
    pub position: Vec2,
    pub velocity: Vec2,
    pub acceleration: Vec2,
    pub stance: (VerticalStance, HorizontalStance),
    pub movement: (Action, FrameNumber),
    pub race: Race,
    pub inputs: InputScheme,
    pub platforms_to_ignore: Seq<usize>,
    pub touched_platforms: Seq<usize>,
}

/// One of the platforms touched is not among those to ignore.
pub open spec fn touches_new_platform(touched: Seq<usize>, ignored: Seq<usize>) -> bool {
    exists|k: int| 0 <= k < touched.len() && !ignored.contains(#[trigger] touched[k])
}

impl PlayerModel {
    /// The hitboxes and the position are within the world's bounds.
    pub open spec fn in_world(self) -> bool {
        &&& boxes_in_world(self.bboxes)
        &&& self.position.within(WORLD_MAX as int)
    }

    /// The fighter is falling onto a platform that stops it.
    pub open spec fn lands(self, contacted: Seq<usize>) -> bool {
        touches_new_platform(contacted, self.platforms_to_ignore) && self.velocity.y > 0
    }

    /// The fighter after the changes of one tick were applied: it remembers
    /// the platforms, and the force is added to its acceleration. A fighter
    /// that lands has its vertical acceleration set to cancel its fall and
    /// takes no vertical force.
    pub open spec fn applied(self, force: Vec2, contacted: Seq<usize>) -> PlayerModel {
        let (base, push) = if self.lands(contacted) {
            (
                Vec2 { x: self.acceleration.x, y: (-self.velocity.y) as i64 },
                Vec2 { x: force.x, y: 0 },
            )
        } else {
            (self.acceleration, force)
        };
        PlayerModel { touched_platforms: contacted, acceleration: base.clamped_sum(push), ..self }
    }

    /// The fighter one tick later: the acceleration is added to the
    /// velocity, the new velocity to the position, and the acceleration is
    /// spent. Velocity and position stay within the world's bounds.
    pub open spec fn stepped(self) -> PlayerModel {
        let velocity = self.velocity.clamped_sum(self.acceleration);
        PlayerModel {
            velocity,
            position: self.position.clamped_sum(velocity),
            acceleration: Vec2 { x: 0, y: 0 },
            ..self
        }
    }

    /// The fighter after one action. Only walking on the ground does
    /// anything: the fighter turns and moves by [`WALK_STEP`].
    pub open spec fn acted(self, action: Action) -> PlayerModel {
        match (action, self.stance.0) {
            (Action::Walk(HorizontalStance::Left), VerticalStance::OnGround(_)) => PlayerModel {
                stance: (self.stance.0, HorizontalStance::Left),
                position: self.position.clamped_sum(Vec2 { x: (-WALK_STEP) as i64, y: 0 }),
                ..self
            },
            (Action::Walk(HorizontalStance::Right), VerticalStance::OnGround(_)) => PlayerModel {
                stance: (self.stance.0, HorizontalStance::Right),
                position: self.position.clamped_sum(Vec2 { x: WALK_STEP, y: 0 }),
                ..self
            },
            _ => self,
        }
    }

    /// The fighter after a list of actions, one after the other.
    pub open spec fn after_actions(self, actions: Seq<Action>) -> PlayerModel
        decreases actions.len(),
    {
        if actions.len() == 0 {
            self
        } else {
            self.after_actions(actions.drop_last()).acted(actions.last())
        }
    }
}

impl PlayerModel {
    /// Actions leave a fighter within the world's bounds.
    pub proof fn lemma_after_actions_in_world(self, actions: Seq<Action>)
        requires
            self.in_world(),
        ensures
            self.after_actions(actions).in_world(),
        decreases actions.len(),
    {
        if actions.len() > 0 {
            self.lemma_after_actions_in_world(actions.drop_last());
        }
    }

    /// A fighter that lands does not fall any further: after the changes
    /// are applied and the tick has passed, it has no vertical velocity and
    /// stands at the height it had.
    pub proof fn lemma_landing_stops_fall(self, force: Vec2, contacted: Seq<usize>)
        requires
            self.in_world(),
            self.velocity.within(WORLD_MAX as int),
            self.lands(contacted),
        ensures
            self.applied(force, contacted).stepped().velocity.y == 0,
            self.applied(force, contacted).stepped().position.y == self.position.y,
            self.applied(force, contacted).stepped().acceleration == (Vec2 { x: 0, y: 0 }),
    {
    }
}

impl View for Player {
    type V = PlayerModel;

    closed spec fn view(&self) -> PlayerModel {
        PlayerModel {
            bboxes: self.bboxes@,
            position: self.position,
            velocity: self.velocity,
            acceleration: self.acceleration,
            stance: self.stance,
            movement: self.movement,
            race: self.race,
            inputs: self.inputs,
            platforms_to_ignore: self.platforms_to_ignore@,
            touched_platforms: self.touched_platforms@,
        }
    }
}

/// Whether `id` is in the list.
fn contains_id(ids: &Vec<usize>, id: usize) -> (found: bool)
    ensures
        found == ids@.contains(id),
{
    let mut i: usize = 0;
    while i < ids.len()
        invariant
            i <= ids@.len(),
            forall|k: int| 0 <= k < i ==> ids@[k] != id,
        decreases ids@.len() - i,
    {
        if ids[i] == id {
            return true;
        }
        i = i + 1;
    }
    false
}

impl Player {
    /// A fighter at rest that stands on the ground, faces left and has
    /// touched nothing.
    pub fn new(
        bboxes: Vec<BoundingBox>,
        position: Vec2,
        race: Race,
        inputs: InputScheme,
    ) -> (player: Player)
        ensures
            player@ == (PlayerModel {
                bboxes: bboxes@,
                position,
                velocity: Vec2 { x: 0, y: 0 },
                acceleration: Vec2 { x: 0, y: 0 },
                stance: (VerticalStance::OnGround(GroundStance::Standing), HorizontalStance::Left),
                movement: (Action::Idle, 0u8),
                race,
                inputs,
                platforms_to_ignore: Seq::<usize>::empty(),
                touched_platforms: Seq::<usize>::empty(),
            }),
    {
        Player {
            bboxes,
            position,
            velocity: Vec2::zeros(),
            acceleration: Vec2::zeros(),
            stance: (VerticalStance::OnGround(GroundStance::Standing), HorizontalStance::Left),
            movement: (Action::Idle, 0),
            race,
            stats: Stats {  },
            inputs,
            platforms_to_ignore: Vec::new(),
            touched_platforms: Vec::new(),
        }
    }

    /// Where the fighter is.
    pub fn position(&self) -> (r: Vec2)
        ensures
            r == self@.position,
    {
        self.position
    }

    /// How fast the fighter moves, per tick.
    pub fn velocity(&self) -> (r: Vec2)
        ensures
            r == self@.velocity,
    {
        self.velocity
    }

    /// What the next tick adds to the velocity.
    pub fn acceleration(&self) -> (r: Vec2)
        ensures
            r == self@.acceleration,
    {
        self.acceleration
    }

    /// How the fighter stands and where it faces.
    pub fn stance(&self) -> (r: (VerticalStance, HorizontalStance))
        ensures
            r == self@.stance,
    {
        self.stance
    }

    /// The platforms touched in the tick that was applied last.
    pub fn touched_platforms(&self) -> (r: &Vec<usize>)
        ensures
            r@ == self@.touched_platforms,
    {
        &self.touched_platforms
    }

    /// Names the platforms that do not stop the fighter's fall.
    pub fn set_platforms_to_ignore(&mut self, platforms: Vec<usize>)
        ensures
            final(self)@ == (PlayerModel { platforms_to_ignore: platforms@, ..old(self)@ }),
    {
        self.platforms_to_ignore = platforms;
    }

    fn reset_for_update(&mut self)
        ensures
            final(self)@ == (PlayerModel { acceleration: Vec2 { x: 0, y: 0 }, ..old(self)@ }),
    {
        self.acceleration = Vec2::zeros();
    }

    /// Remembers the platforms touched and, if the fighter lands on one of
    /// them, cancels its fall: the vertical acceleration becomes the
    /// opposite of the velocity and the vertical force is dropped.
    fn update_for_platforms(&mut self, platforms: Vec<usize>, f: &mut Vec2)
        ensures
            final(self)@ == (PlayerModel {
                touched_platforms: platforms@,
                acceleration: if old(self)@.lands(platforms@) {
                    Vec2 { x: old(self)@.acceleration.x, y: (-old(self)@.velocity.y) as i64 }
                } else {
                    old(self)@.acceleration
                },
                ..old(self)@
            }),
            *final(f) == if old(self)@.lands(platforms@) {
                Vec2 { x: old(f).x, y: 0 }
            } else {
                *old(f)
            },
    {
        self.touched_platforms = platforms;
        let mut touching_new_platform = false;
        let mut i: usize = 0;
        while i < self.touched_platforms.len()
            invariant_except_break
                !touching_new_platform,
                forall|k: int|
                    0 <= k < i ==> self.platforms_to_ignore@.contains(
                        #[trigger] self.touched_platforms@[k],
                    ),
            invariant
                i <= self.touched_platforms@.len(),
            ensures
                touching_new_platform == touches_new_platform(
                    self.touched_platforms@,
                    self.platforms_to_ignore@,
                ),
            decreases self.touched_platforms@.len() - i,
        {
            if !contains_id(&self.platforms_to_ignore, self.touched_platforms[i]) {
                touching_new_platform = true;
                break ;
            }
            i = i + 1;
        }
        // A fighter that falls onto a platform it is not falling through stops.
        if touching_new_platform && self.velocity.y > 0 {
            self.acceleration.y = -self.velocity.y;
            f.y = 0;
        }
    }

    /// Adds `dir` to the acceleration, within the world's bounds.
    pub fn handle_push(&mut self, dir: Vec2)
        ensures
            final(self)@ == (PlayerModel {
                acceleration: old(self)@.acceleration.clamped_sum(dir),
                ..old(self)@
            }),
    {
        self.acceleration = self.acceleration.plus_clamped(dir);
    }
}

impl Collidable for Player {
    type ChangeSet = Changes;

    open spec fn hitboxes(&self) -> Seq<BoundingBox> {
        self@.bboxes
    }

    open spec fn offset(&self) -> Vec2 {
        self@.position
    }

    fn get_hitboxes<'tick>(&'tick self) -> (boxes: &'tick [BoundingBox]) {
        self.bboxes.as_slice()
    }

    fn get_offset(&self) -> (offset: Vec2) {
        self.position
    }

    fn apply_changeset(&mut self, changes: Changes)
        ensures
            final(self)@ == old(self)@.applied(changes.force, changes.contacted_platforms@),
    {
        let Changes { force, contacted_platforms } = changes;
        let mut force = force;
        self.update_for_platforms(contacted_platforms, &mut force);
        self.handle_push(force);
    }

    fn handle_phys_update(&mut self)
        ensures
            final(self)@ == old(self)@.stepped(),
    {
        self.velocity = self.velocity.plus_clamped(self.acceleration);
        self.position = self.position.plus_clamped(self.velocity);
        self.reset_for_update();
    }
}

impl HandleInput for Player {
    /// Carries out, one after the other, the actions that the keyboard
    /// asks for.
    fn handle_input(&mut self, keyboard: &Keyboard, fire_once_key_buffer: &Vec<Input>)
        ensures
            final(self)@ == old(self)@.after_actions(
                actions_of_keys(old(self)@.inputs.continuous, keyboard.pressed@, keyboard.mods),
            ),
    {
        let actions = self.inputs.get_possible_actions(keyboard, fire_once_key_buffer);
        let ghost start = self@;
        let mut i: usize = 0;
        while i < actions.len()
            invariant
                i <= actions@.len(),
                self@ == start.after_actions(actions@.take(i as int)),
            decreases actions@.len() - i,
        {
            proof {
                assert(actions@.take(i + 1).drop_last() =~= actions@.take(i as int));
            }
            match actions[i] {
                Action::Walk(HorizontalStance::Left) => {
                    if let VerticalStance::OnGround(_) = self.stance.0 {
                        self.stance.1 = HorizontalStance::Left;
                        self.position = self.position.plus_clamped(Vec2::new(-WALK_STEP, 0));
                    }
                },
                Action::Walk(HorizontalStance::Right) => {
                    if let VerticalStance::OnGround(_) = self.stance.0 {
                        self.stance.1 = HorizontalStance::Right;
                        self.position = self.position.plus_clamped(Vec2::new(WALK_STEP, 0));
                    }
                },
                _ => (),
            }
            i = i + 1;
        }
        assert(actions@.take(i as int) =~= actions@);
    }
}

/// The fighter used for testing: an alien at rest on the ground with one
/// square hitbox of thirty units, a hundred units to the right of the
/// origin, with the default keys.
pub open spec fn test_player_model() -> PlayerModel {
    PlayerModel {
        bboxes: seq![
            BoundingBox {
                pos: Vec2 { x: 0, y: 0 },
                size: Vec2 { x: 30_000_000, y: 30_000_000 },
                ori: 0,
            },
        ],
        position: Vec2 { x: 100_000_000, y: 0 },
        velocity: Vec2 { x: 0, y: 0 },
        acceleration: Vec2 { x: 0, y: 0 },
        stance: (VerticalStance::OnGround(GroundStance::Standing), HorizontalStance::Left),
        movement: (Action::Idle, 0u8),
        race: Race::Alien,
        inputs: InputScheme {
            continuous: ContinuousScheme {
                walk_left: (KEY_A, MODS_NONE),
                walk_right: (KEY_D, MODS_NONE),
            },
            fire_once: FireOnceScheme,
        },
        platforms_to_ignore: Seq::empty(),
        touched_platforms: Seq::empty(),
    }
}

/// A `Player` to be used for testing.
pub fn test_player() -> (player: Player)
    ensures
        player@ == test_player_model(),
        player@.in_world(),
{
    let mut bboxes: Vec<BoundingBox> = Vec::new();
    bboxes.push(
        BoundingBox { pos: Vec2::new(0, 0), size: Vec2::new(30 * ONE, 30 * ONE), ori: 0 },
    );
    let player = Player::new(bboxes, Vec2::new(100 * ONE, 0), Race::Alien, InputScheme::default());
    proof {
        assert(player@.bboxes =~= test_player_model().bboxes);
    }
    player
}

} // verus!
