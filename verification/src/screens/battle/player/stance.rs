//! How a fighter stands: the state its animation is drawn from.

use vstd::prelude::*;
use crate::screens::battle::player::action::Attack;

verus! {

/// Whether the player character faces left or right.
#[derive(Clone, Copy, Debug, PartialEq, Eq, Structural)]
pub enum HorizontalStance {
    Left,
    Right,
}

/// What actions are currently being animated. As well as a bit of state.
#[derive(Clone, Copy, Debug)]
pub enum VerticalStance {
    InAir { jumps_spent: u32, stance: AirStance },
    OnGround(GroundStance),
}

/// The animation state and counters while in the air.
#[derive(Clone, Copy, Debug)]
pub enum AirStance {
    FastFalling,
    Falling,
    Upping,
    Attack(Attack),
}

/// The animation state and counters while on the ground.
#[derive(Clone, Copy, Debug)]
pub enum GroundStance {
    Standing,
    Attack(Attack),
}

} // verus!
