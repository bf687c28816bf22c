//! Collision detection and resolution for a frame-stepped 2D fighting game.
//!
//! All quantities are fixed-point integers: a length of one world unit is
//! [`physics::vector::ONE`] and angles are measured in millionths of a radian.
//! Every function is total on the inputs its contract admits and never panics.

pub mod inputs;
pub mod physics;
pub mod screens;
pub mod settings;
pub mod util;
pub mod walpurgis;
