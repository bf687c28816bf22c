//! Small generic helpers used by the physics engine.

pub mod cartesian;
pub mod slices;
pub mod tuple;
pub mod vecs;
