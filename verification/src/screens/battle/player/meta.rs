//! What a fighter is, apart from where it stands.

use vstd::prelude::*;

verus! {

/// Categories of basic attacks.
#[derive(Clone, Copy, Debug, PartialEq, Eq, Structural)]
pub enum BasicClass {
    Air,
    Heavy,
    Light,
}

/// The race of the player character.
#[derive(Clone, Copy, Debug, PartialEq, Eq, Structural)]
pub enum Race {
    /// The aliens are the ultimate forms of biological evolution.
    Alien,
    /// The robots are the ultimate forms of technological evolution.
    Robot,
    /// An interesting energy-based race.
    Mage,
}

/// A comprehensive summary of stats and perks taken in the basic skill tree.
#[derive(Clone, Copy, Debug, Default)]
pub struct Stats {

}

} // verus!
