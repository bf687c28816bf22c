//! What a fighter can be told to do.

use vstd::prelude::*;
use crate::screens::battle::player::meta::BasicClass;
use crate::screens::battle::player::stance::HorizontalStance;

verus! {

/// Actions available for the player to take.
#[derive(Clone, Copy, Debug)]
pub enum Action {
    Idle,
    Walk(HorizontalStance),
    Dash(HorizontalStance),
    Jump,
    Attack(Attack),
}

/// Different types of attacks.
#[derive(Clone, Copy, Debug)]
pub enum Attack {
    DashAttack,
    Shielding,
    Basics(BasicClass, AttackDir),
}

/// The direction of an attack.
#[derive(Clone, Copy, Debug, PartialEq, Eq, Structural)]
pub enum AttackDir {
    Up,
    Down,
    Side,
}

} // verus!
