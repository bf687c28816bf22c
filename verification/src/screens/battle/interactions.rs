//! What a collision does to each of the two entities that collide.
//!
//! Each handler returns the changes for the first entity and the changes
//! for the second; `None` where the collision leaves an entity as it is.

use vstd::prelude::*;
use crate::physics::collision::Collision;
use crate::physics::vector::Vec2;
use crate::screens::battle::platform::Platform;
use crate::screens::battle::player::Changes;
use crate::screens::battle::player::Player;

verus! {

/// Two platforms that overlap do nothing to each other.
pub fn handle_platform_platform_collision<'tick>(c: Collision<'tick, Platform, Platform>) -> (r: (
    Option<()>,
    Option<()>,
))
    ensures
        r.0 is None,
        r.1 is None,
{
    (None, None)
}

/// Two fighters that overlap do nothing to each other.
pub fn handle_player_player_collision<'tick>(c: Collision<'tick, Player, Player>) -> (r: (
    Option<Changes>,
    Option<Changes>,
))
    ensures
        r.0 is None,
        r.1 is None,
{
    (None, None)
}

/// A fighter that overlaps a platform is in contact with it: its changes
/// name the platform and carry no force. The platform stays as it is.
pub fn handle_player_platform_collision<'tick>(c: Collision<'tick, Player, Platform>) -> (r: (
    Option<Changes>,
    Option<()>,
))
    ensures
        r.0 matches Some(changes) && changes.force == (Vec2 { x: 0, y: 0 })
            && changes.contacted_platforms@ == seq![c.ids.1],
        r.1 is None,
{
    let mut contacted_platforms: Vec<usize> = Vec::new();
    contacted_platforms.push(c.ids.1);
    assert(contacted_platforms@ =~= seq![c.ids.1]);
    (Some(Changes { force: Vec2::zeros(), contacted_platforms }), None)
}

} // verus!
