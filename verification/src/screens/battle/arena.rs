//! The arena: everything a fight takes place in, apart from the fighters.

use vstd::prelude::*;
use crate::screens::battle::platform::Platform;

verus! {

/// Stores data for the arena outside of actual players.
#[derive(Debug)]
pub struct Arena {
    /// Name of the arena.
    pub name: String,
    pub platforms: Vec<Platform>,
}

} // verus!
