//! Collision detection and resolution for a small real-time simulation.
//!
//! Geometry lives on an integer grid: every coordinate, radius and size is
//! a whole number of grid units, and the caller picks what a unit stands for
//! (a hundredth of a pixel, a millimetre, ...).
pub mod assets;
pub mod collision;
pub mod control_flow;
pub mod input;
pub mod interfaces;
pub mod math;
pub mod simulation;
