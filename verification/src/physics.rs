//! Geometry and collision detection.
//!
//! Entities are compared pairwise; for each pair every combination of their
//! hitboxes is tested with a separating-axis check on oriented rectangles.

pub mod collision;
pub mod obb;
pub mod trig;
pub mod vector;
