//! Steering-force computation for autonomous agents.
//!
//! Given a snapshot of an agent's kinematic state (position, velocity) and
//! either a goal position or a set of nearby moving obstacles, each behavior
//! produces one corrective force vector for the next simulation tick.
//!
//! All quantities are fixed-point integers: one world unit is `SCALE`
//! (1000) raw units, so positions, velocities, forces and times are held in
//! thousandths. This keeps every computation exact and deterministic; the
//! contracts below pin each result down to the integer.

pub mod behaviors;
pub mod math;
pub mod vec3;

pub use math::SCALE;
