//! The steering behaviors and the capability interface they share.

pub mod arrive;
pub mod behavior;
pub mod collision_avoidance;
