//! A platform: a fixed part of the arena that fighters land on.

use vstd::prelude::*;
use crate::physics::collision::Collidable;
use crate::physics::obb::BoundingBox;
use crate::physics::vector::Vec2;

verus! {

/// Denotes a collidable, static section of the arena.
#[derive(Clone, Copy, Debug)]
pub struct Platform {
    /// The space occupied by the platform.
    pub body: BoundingBox,
}

impl Collidable for Platform {
    type ChangeSet = ();

    open spec fn hitboxes(&self) -> Seq<BoundingBox> {
        seq![self.body]
    }

    open spec fn offset(&self) -> Vec2 {
        Vec2 { x: 0, y: 0 }
    }

    fn get_hitboxes<'tick>(&'tick self) -> (boxes: &'tick [BoundingBox]) {
        self.body.get_hitboxes()
    }

    fn get_offset(&self) -> (offset: Vec2) {
        Vec2::zeros()
    }

    /// Collisions do nothing to a platform.
    fn apply_changeset(&mut self, changes: ())
        ensures
            *final(self) == *old(self),
    {
    }

    /// A platform does not move.
    fn handle_phys_update(&mut self)
        ensures
            *final(self) == *old(self),
    {
    }
}

} // verus!
