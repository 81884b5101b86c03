//! The capability interface shared by every steering behavior.

use crate::vec3::{Vec3Fix, V3};
use vstd::prelude::*;

verus! {

/// Magnitude bound (in thousandths) on the positions, velocities and tuning
/// parameters a behavior snapshot may hold: ten thousand world units. Every
/// behavior's arithmetic is proved free of overflow within this bound.
pub const COORD_LIMIT: i64 = 10_000_000;

/// A steering behavior: an immutable snapshot of kinematic state, taken once
/// per simulation tick, from which exactly one corrective force vector is
/// computed. Behaviors hold no other state and have no side effects, so the
/// force is a pure function of the snapshot, pinned down by `spec_force`.
pub trait SteeringBehavior: Sized {
    /// The snapshot is well formed: the behavior's parameter invariants hold
    /// and all magnitudes lie within `COORD_LIMIT`.
    spec fn wf(&self) -> bool;

    /// The exact force this behavior computes, in the fixed-point model.
    spec fn spec_force(&self) -> V3;

    /// Compute the steering force for this tick.
    fn get_steering_force(&self) -> (r: Vec3Fix)
        requires
            self.wf(),
        ensures
            r@ == self.spec_force(),
    ;
}

} // verus!
