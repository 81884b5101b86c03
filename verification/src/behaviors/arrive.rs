//! Goal-seeking with deceleration: a braking/approach force toward a target
//! position, easing smoothly to a stop inside the slow radius.

use crate::behaviors::behavior::{SteeringBehavior, COORD_LIMIT};
use crate::math::{
    is_sqrt_floor, lemma_mdt_abs, lemma_mdt_coarse, lemma_mdt_le_m, lemma_mdt_scale_down,
    sqrt_floor, SCALE,
};
use crate::vec3::{
    clamp3, dot3, in_range, len2, lemma_clamp3_len, lemma_comp_le_norm, scale3, sub3, Vec3Fix, V3,
};
use vstd::arithmetic::div_mod::{lemma_div_denominator, lemma_div_multiples_vanish};
use vstd::prelude::*;

verus! {

/// Point-seeking behavior: full speed toward the target while far away,
/// scaling the desired speed linearly down to zero inside `slow_radius`,
/// with the corrective force clamped to the acceleration limits.
///
/// All lengths are in thousandths of a world unit, speeds in thousandths of
/// a unit per time unit, and `time_to_target` in thousandths of a time unit.
#[derive(Clone, Copy)]
pub struct Arrive {
    pub current_pos: Vec3Fix,
    pub current_velocity: Vec3Fix,
    pub target_pos: Vec3Fix,
    pub slow_radius: i64,
    pub max_speed: i64,
    pub time_to_target: i64,
    pub max_acceleration: i64,
    pub max_deceleration: i64,
}

impl Arrive {
    /// Offset from the current position to the target.
    pub open spec fn direction(&self) -> V3 {
        sub3(self.target_pos@, self.current_pos@)
    }

    /// Distance to the target, rounded down.
    pub open spec fn distance(&self) -> int {
        sqrt_floor(len2(self.direction()))
    }

    /// Desired approach speed: `max_speed` outside the slow radius, scaled
    /// linearly with the remaining distance inside it.
    pub open spec fn target_speed(&self) -> int {
        if self.distance() > self.slow_radius {
            self.max_speed as int
        } else {
            self.max_speed * self.distance() / (self.slow_radius as int)
        }
    }

    /// The desired velocity: the direction to the target, normalized and
    /// scaled to the desired speed.
    pub open spec fn desired_velocity(&self) -> V3 {
        scale3(self.direction(), self.target_speed(), self.distance())
    }

    /// The velocity-error force before clamping: the gap between desired
    /// and current velocity, scaled by the inverse time constant.
    pub open spec fn raw_force(&self) -> V3 {
        scale3(
            sub3(self.desired_velocity(), self.current_velocity@),
            SCALE as int,
            self.time_to_target as int,
        )
    }
}

impl SteeringBehavior for Arrive {
    /// Parameter invariants: the divisors `slow_radius` and `time_to_target`
    /// are positive, all magnitudes lie within `COORD_LIMIT`, and the agent
    /// is not already exactly at the target (the direction would have no
    /// normalized form there; callers gate on a minimum distance).
    open spec fn wf(&self) -> bool {
        &&& in_range(self.current_pos@, COORD_LIMIT as int)
        &&& in_range(self.current_velocity@, COORD_LIMIT as int)
        &&& in_range(self.target_pos@, COORD_LIMIT as int)
        &&& 1 <= self.slow_radius <= COORD_LIMIT
        &&& 0 <= self.max_speed <= COORD_LIMIT
        &&& 1 <= self.time_to_target <= COORD_LIMIT
        &&& 0 <= self.max_acceleration <= COORD_LIMIT
        &&& 0 <= self.max_deceleration <= COORD_LIMIT
        &&& len2(self.direction()) > 0
    }

    /// The raw velocity-error force, clamped to `max_acceleration` when it
    /// pushes toward the target and to `max_deceleration` when it brakes.
    open spec fn spec_force(&self) -> V3 {
        if dot3(self.raw_force(), self.direction()) > 0 {
            clamp3(self.raw_force(), self.max_acceleration as int)
        } else {
            clamp3(self.raw_force(), self.max_deceleration as int)
        }
    }

    fn get_steering_force(&self) -> (r: Vec3Fix) {
        let direction: Vec3Fix = self.target_pos.sub(self.current_pos);
        let distance: i64 = direction.length();
        proof {
            assert(1 <= distance as int) by (nonlinear_arith)
                requires
                    is_sqrt_floor(len2(direction@), distance as int),
                    len2(direction@) > 0;
            lemma_comp_le_norm(direction@, distance as int);
        }
        let target_speed: i64 = if distance > self.slow_radius {
            self.max_speed
        } else {
            proof {
                lemma_mdt_scale_down(
                    self.max_speed as int,
                    distance as int,
                    self.slow_radius as int,
                    self.max_speed as int,
                );
                lemma_mdt_abs(self.max_speed as int, distance as int, self.slow_radius as int);
            }
            crate::math::mul_div(self.max_speed, distance, self.slow_radius)
        };
        proof {
            assert(target_speed as int == self.target_speed());
            assert(0 <= target_speed <= self.max_speed);
            lemma_mdt_le_m(direction@.x, target_speed as int, distance as int, distance as int);
            lemma_mdt_le_m(direction@.y, target_speed as int, distance as int, distance as int);
            lemma_mdt_le_m(direction@.z, target_speed as int, distance as int, distance as int);
        }
        let desired: Vec3Fix = direction.scaled(target_speed, distance);
        let verror: Vec3Fix = desired.sub(self.current_velocity);
        proof {
            lemma_mdt_coarse(
                verror@.x,
                SCALE as int,
                self.time_to_target as int,
                2 * COORD_LIMIT as int,
            );
            lemma_mdt_coarse(
                verror@.y,
                SCALE as int,
                self.time_to_target as int,
                2 * COORD_LIMIT as int,
            );
            lemma_mdt_coarse(
                verror@.z,
                SCALE as int,
                self.time_to_target as int,
                2 * COORD_LIMIT as int,
            );
        }
        let force: Vec3Fix = verror.scaled(SCALE, self.time_to_target);
        let toward: i128 = force.dot(direction);
        if toward > 0 {
            force.clamp_length_max(self.max_acceleration)
        } else {
            force.clamp_length_max(self.max_deceleration)
        }
    }
}

impl Default for Arrive {
    /// A zeroed snapshot with the stock tuning: slow radius 1.5 units, max
    /// speed 7.5 units, time-to-target 0.001 time units, max acceleration
    /// 250 units, max deceleration 500 units (all held in thousandths).
    fn default() -> (r: Self)
        ensures
            r.current_pos@ == crate::vec3::zero3(),
            r.current_velocity@ == crate::vec3::zero3(),
            r.target_pos@ == crate::vec3::zero3(),
            r.slow_radius == 1500,
            r.max_speed == 7500,
            r.time_to_target == 1,
            r.max_acceleration == 250_000,
            r.max_deceleration == 500_000,
    {
        Arrive {
            current_pos: Vec3Fix::zero(),
            current_velocity: Vec3Fix::zero(),
            target_pos: Vec3Fix::zero(),
            slow_radius: 1500,
            max_speed: 7500,
            time_to_target: 1,
            max_acceleration: 250_000,
            max_deceleration: 500_000,
        }
    }
}

/// The desired speed is continuous at the slow-radius boundary: at a
/// distance equal to the slow radius it is exactly `max_speed`, and at half
/// the slow radius it is exactly half of `max_speed` (rounded down).
pub proof fn lemma_desired_speed_boundary(a: Arrive)
    requires
        a.wf(),
    ensures
        a.distance() == a.slow_radius ==> a.target_speed() == a.max_speed,
        2 * a.distance() == a.slow_radius ==> a.target_speed() == a.max_speed as int / 2,
{
    let ms: int = a.max_speed as int;
    let d: int = a.distance();
    if d == a.slow_radius {
        lemma_div_multiples_vanish(ms, d);
        assert(ms * d == d * ms) by (nonlinear_arith);
    }
    if 2 * d == a.slow_radius {
        assert(1 <= d);
        assert(0 <= ms * d && ms * d == d * ms && d * 2 == 2 * d) by (nonlinear_arith)
            requires
                0 <= ms,
                1 <= d;
        lemma_div_denominator(ms * d, d, 2);
        lemma_div_multiples_vanish(ms, d);
    }
}

/// The returned force respects the acceleration limits: its squared length
/// is at most the square of `max_acceleration` when it pushes toward the
/// target (positive dot product with the direction), and at most the square
/// of `max_deceleration` when it brakes.
pub proof fn lemma_force_respects_limits(a: Arrive)
    requires
        a.wf(),
    ensures
        dot3(a.raw_force(), a.direction()) > 0 ==> len2(a.spec_force()) <= (
        a.max_acceleration as int) * (a.max_acceleration as int),
        dot3(a.raw_force(), a.direction()) <= 0 ==> len2(a.spec_force()) <= (
        a.max_deceleration as int) * (a.max_deceleration as int),
{
    lemma_clamp3_len(a.raw_force(), a.max_acceleration as int);
    lemma_clamp3_len(a.raw_force(), a.max_deceleration as int);
}

} // verus!
