//! Predictive collision avoidance: a repulsive force away from obstacles
//! whose predicted closest approach falls within a short look-ahead horizon.

use crate::behaviors::behavior::{SteeringBehavior, COORD_LIMIT};
use crate::math::{
    is_sqrt_floor, lemma_mdt_abs, lemma_mdt_bound, lemma_mdt_le_m, lemma_mdt_scale_down,
    lemma_sqrt_floor_exists, lemma_sqrt_floor_is, lemma_sqrt_floor_square, mul_div, sqrt_floor,
    SCALE,
};
use crate::vec3::{
    add3, dot3, in_range, len2, lemma_comp_le_norm, lemma_dot3_bound, lemma_len2_nonneg, scale3,
    sub3, zero3, Vec3Fix, V3,
};
use vstd::arithmetic::div_mod::{
    lemma_div_denominator, lemma_div_multiples_vanish, lemma_div_pos_is_pos,
};
use vstd::prelude::*;

verus! {

/// Look-ahead horizon in thousandths of a time unit: only collisions
/// predicted within the next 0.1 time units provoke an avoidance force.
pub const TIME_HORIZON: i64 = 100;

/// Most obstacles one snapshot may hold; keeps the summed force within
/// `i64` (see `CONTRIB_BOUND`).
pub const MAX_TARGETS: usize = 10_000;

/// Bound on the magnitude of a single obstacle's force contribution per
/// component, for snapshots within `COORD_LIMIT`.
pub const CONTRIB_BOUND: i64 = 400_000_000_000;

/// A point-in-time kinematic snapshot of one simulation entity.
#[derive(Clone, Copy, PartialEq, Eq, Structural, Debug)]
pub struct Entity {
    pub position: Vec3Fix,
    pub velocity: Vec3Fix,
}

/// All magnitudes of an entity's snapshot lie within `COORD_LIMIT`.
pub open spec fn entity_in_range(e: Entity) -> bool {
    in_range(e.position@, COORD_LIMIT as int) && in_range(e.velocity@, COORD_LIMIT as int)
}

/// Mathematical model of a predicted time to first contact.
pub enum Ttc {
    /// The spheres already overlap: contact time zero, maximum urgency.
    Overlapping,
    /// The paths never close to within the combined radius.
    Never,
    /// First contact after this many thousandths of a time unit.
    At(int),
}

/// Predicted time to first contact between two constant-velocity spheres,
/// in thousandths of a time unit.
#[derive(Clone, Copy, PartialEq, Eq, Structural, Debug)]
pub enum TimeToCollision {
    Overlapping,
    Never,
    At(i64),
}

impl View for TimeToCollision {
    type V = Ttc;

    open spec fn view(&self) -> Ttc {
        match *self {
            TimeToCollision::Overlapping => Ttc::Overlapping,
            TimeToCollision::Never => Ttc::Never,
            TimeToCollision::At(t) => Ttc::At(t as int),
        }
    }
}

/// The time at which two constant-velocity spheres of combined radius
/// `radius` centered on `agent` and `target` first come within contact
/// distance, found as the smaller root of the quadratic closest-approach
/// test on the offset `x` and relative velocity `v`:
/// `tau = (b - sqrt(b*b - a*c)) / a` with `b = x . x`, `a = v . v` and
/// `c = x . x - radius * radius`, scaled to thousandths of a time unit.
pub open spec fn ttc_of(agent: Entity, radius: int, target: Entity) -> Ttc {
    let x = sub3(target.position@, agent.position@);
    let c = dot3(x, x) - radius * radius;
    if c < 0 {
        Ttc::Overlapping
    } else {
        let v = sub3(agent.velocity@, target.velocity@);
        let a = dot3(v, v);
        if a == 0 {
            Ttc::Never
        } else {
            let b = dot3(x, x);
            let discr = b * b - a * c;
            if discr > 0 {
                Ttc::At((b - sqrt_floor(discr)) * (SCALE as int) / a)
            } else {
                Ttc::Never
            }
        }
    }
}

/// The force one obstacle adds to the total: zero unless its predicted
/// contact time is positive and within the horizon; otherwise the relative
/// position at the predicted contact instant (normalized only when no axis
/// component is zero), scaled by the urgency ramp
/// `max_acceleration * (TIME_HORIZON - t) / TIME_HORIZON`.
pub open spec fn contribution_of(agent: Entity, radius: int, max_acceleration: int, target: Entity) -> V3 {
    match ttc_of(agent, radius, target) {
        Ttc::Overlapping => zero3(),
        Ttc::Never => zero3(),
        Ttc::At(t) => if t == 0 || t > TIME_HORIZON as int {
            zero3()
        } else {
            let rel = sub3(
                add3(agent.position@, scale3(agent.velocity@, t, SCALE as int)),
                add3(target.position@, scale3(target.velocity@, t, SCALE as int)),
            );
            let dir = if rel.x != 0 && rel.y != 0 && rel.z != 0 {
                scale3(rel, SCALE as int, sqrt_floor(len2(rel)))
            } else {
                rel
            };
            let mag = max_acceleration * (TIME_HORIZON as int - t) / (TIME_HORIZON as int);
            scale3(dir, mag, SCALE as int)
        },
    }
}

/// Sum of the contributions of the first `n` obstacles.
pub open spec fn total_force_prefix(
    agent: Entity,
    radius: int,
    max_acceleration: int,
    ts: Seq<Entity>,
    n: int,
) -> V3
    decreases n,
{
    if n <= 0 {
        zero3()
    } else {
        add3(
            total_force_prefix(agent, radius, max_acceleration, ts, n - 1),
            contribution_of(agent, radius, max_acceleration, ts[n - 1]),
        )
    }
}

/// The cumulative repulsion: the vector sum of every obstacle's
/// contribution, in sequence order.
pub open spec fn total_force(agent: Entity, radius: int, max_acceleration: int, ts: Seq<Entity>) -> V3 {
    total_force_prefix(agent, radius, max_acceleration, ts, ts.len() as int)
}

/// Multi-obstacle predictive avoidance: pushes the agent away from every
/// obstacle whose predicted contact time falls within the look-ahead
/// horizon, with a force that grows as contact draws nearer.
pub struct CollisionAvoidance {
    pub max_acceleration: i64,
    pub radius: i64,
    pub current: Entity,
    pub targets: Vec<Entity>,
}

impl CollisionAvoidance {
    /// The predicted contact time with one obstacle, as `ttc_of`.
    pub open spec fn spec_ttc(&self, target: Entity) -> Ttc {
        ttc_of(self.current, self.radius as int, target)
    }

    /// Compute the time to collision with one obstacle.
    pub fn get_time_to_collision(&self, target: &Entity) -> (r: TimeToCollision)
        requires
            entity_in_range(self.current),
            entity_in_range(*target),
            0 <= self.radius <= COORD_LIMIT,
        ensures
            r@ == self.spec_ttc(*target),
    {
        let x: Vec3Fix = target.position.sub(self.current.position);
        proof {
            lemma_dot3_bound(x@, x@, 2 * COORD_LIMIT as int);
            lemma_len2_nonneg(x@);
        }
        let xx: i128 = x.dot(x);
        proof {
            assert(0 <= (self.radius as int) * (self.radius as int)
                <= 100_000_000_000_000) by (nonlinear_arith)
                requires
                    0 <= self.radius as int <= COORD_LIMIT as int,
                    COORD_LIMIT == 10_000_000;
        }
        let rr: i128 = (self.radius as i128) * (self.radius as i128);
        let c: i128 = xx - rr;
        if c < 0 {
            return TimeToCollision::Overlapping;
        }
        let v: Vec3Fix = self.current.velocity.sub(target.velocity);
        proof {
            lemma_dot3_bound(v@, v@, 2 * COORD_LIMIT as int);
            lemma_len2_nonneg(v@);
        }
        let a: i128 = v.dot(v);
        if a == 0 {
            return TimeToCollision::Never;
        }
        let b: i128 = xx;
        proof {
            assert(0 <= b as int <= 1_200_000_000_000_000 && 0 < a as int
                <= 1_200_000_000_000_000) by (nonlinear_arith)
                requires
                    -3 * (2 * COORD_LIMIT as int) * (2 * COORD_LIMIT as int) <= b as int <= 3 * (2
                        * COORD_LIMIT as int) * (2 * COORD_LIMIT as int),
                    -3 * (2 * COORD_LIMIT as int) * (2 * COORD_LIMIT as int) <= a as int <= 3 * (2
                        * COORD_LIMIT as int) * (2 * COORD_LIMIT as int),
                    0 <= b as int,
                    0 < a as int,
                    COORD_LIMIT == 10_000_000;
            assert((b as int) * (b as int) <= 0x10_0000_0000_0000_0000_0000_0000_0000 && 0 <= (
            a as int) * (c as int) <= 0x10_0000_0000_0000_0000_0000_0000_0000) by (nonlinear_arith)
                requires
                    0 <= b as int <= 1_200_000_000_000_000,
                    0 < a as int <= 1_200_000_000_000_000,
                    0 <= c as int <= b as int;
        }
        let discr: i128 = b * b - a * c;
        if discr > 0 {
            let s: u128 = crate::math::isqrt_u128(discr as u128);
            proof {
                lemma_sqrt_floor_is(discr as int, s as int);
                assert((s as int) <= b as int) by (nonlinear_arith)
                    requires
                        is_sqrt_floor(discr as int, s as int),
                        discr as int <= (b as int) * (b as int),
                        0 <= b as int,
                        0 <= s as int;
            }
            let num: i128 = b - (s as i128);
            let tau_wide: u128 = ((num as u128) * (SCALE as u128)) / (a as u128);
            proof {
                assert(0 <= (num as int) * (SCALE as int)
                    <= 1_200_000_000_000_000_000) by (nonlinear_arith)
                    requires
                        0 <= num as int <= 1_200_000_000_000_000,
                        SCALE == 1000;
                vstd::arithmetic::div_mod::lemma_div_nonincreasing(
                    (num as int) * (SCALE as int),
                    a as int,
                );
                lemma_div_pos_is_pos((num as int) * (SCALE as int), a as int);
            }
            let tau: i64 = tau_wide as i64;
            return TimeToCollision::At(tau);
        }
        TimeToCollision::Never
    }
}

impl SteeringBehavior for CollisionAvoidance {
    /// Parameter invariants: all magnitudes within `COORD_LIMIT`, at most
    /// `MAX_TARGETS` obstacles.
    open spec fn wf(&self) -> bool {
        &&& 0 <= self.max_acceleration <= COORD_LIMIT
        &&& 0 <= self.radius <= COORD_LIMIT
        &&& entity_in_range(self.current)
        &&& self.targets@.len() <= MAX_TARGETS as int
        &&& forall|i: int|
            0 <= i < self.targets@.len() ==> entity_in_range(#[trigger] self.targets@[i])
    }

    /// The sum of every obstacle's contribution. The sum is deliberately not
    /// clamped: with many simultaneous close obstacles it may exceed
    /// `max_acceleration`; callers needing a hard ceiling clamp downstream.
    open spec fn spec_force(&self) -> V3 {
        total_force(self.current, self.radius as int, self.max_acceleration as int, self.targets@)
    }

    fn get_steering_force(&self) -> (r: Vec3Fix) {
        let ghost radius_g: int = self.radius as int;
        let ghost ma_g: int = self.max_acceleration as int;
        let mut total: Vec3Fix = Vec3Fix::zero();
        let mut idx: usize = 0;
        while idx < self.targets.len()
            invariant
                self.wf(),
                idx <= self.targets@.len(),
                radius_g == self.radius as int,
                ma_g == self.max_acceleration as int,
                total@ == total_force_prefix(self.current, radius_g, ma_g, self.targets@, idx as int),
                in_range(total@, (CONTRIB_BOUND as int) * (idx as int)),
            decreases self.targets@.len() - idx,
        {
            let target: Entity = self.targets[idx];
            let ttc: TimeToCollision = self.get_time_to_collision(&target);
            let ghost one_force_g: V3 = contribution_of(self.current, radius_g, ma_g, target);
            let mut added: bool = false;
            if let TimeToCollision::At(t) = ttc {
                if t != 0 && t <= TIME_HORIZON {
                    proof {
                        lemma_ttc_nonneg(self.current, radius_g, target, t as int);
                        lemma_mdt_scale_down(
                            self.current.velocity@.x,
                            t as int,
                            SCALE as int,
                            COORD_LIMIT as int,
                        );
                        lemma_mdt_scale_down(
                            self.current.velocity@.y,
                            t as int,
                            SCALE as int,
                            COORD_LIMIT as int,
                        );
                        lemma_mdt_scale_down(
                            self.current.velocity@.z,
                            t as int,
                            SCALE as int,
                            COORD_LIMIT as int,
                        );
                        lemma_mdt_scale_down(
                            target.velocity@.x,
                            t as int,
                            SCALE as int,
                            COORD_LIMIT as int,
                        );
                        lemma_mdt_scale_down(
                            target.velocity@.y,
                            t as int,
                            SCALE as int,
                            COORD_LIMIT as int,
                        );
                        lemma_mdt_scale_down(
                            target.velocity@.z,
                            t as int,
                            SCALE as int,
                            COORD_LIMIT as int,
                        );
                    }
                    let vel_t: Vec3Fix = self.current.velocity.scaled(t, SCALE);
                    let pa: Vec3Fix = self.current.position.add(vel_t);
                    let vel_t2: Vec3Fix = target.velocity.scaled(t, SCALE);
                    let pb: Vec3Fix = target.position.add(vel_t2);
                    let rel: Vec3Fix = pa.sub(pb);
                    let dir: Vec3Fix = if rel.x != 0 && rel.y != 0 && rel.z != 0 {
                        let nrm: i64 = rel.length();
                        proof {
                            assert(1 <= nrm as int) by (nonlinear_arith)
                                requires
                                    is_sqrt_floor(len2(rel@), nrm as int),
                                    rel@.x != 0,
                                    len2(rel@) == rel@.x * rel@.x + rel@.y * rel@.y + rel@.z
                                        * rel@.z;
                            lemma_comp_le_norm(rel@, nrm as int);
                            lemma_mdt_le_m(rel@.x, SCALE as int, nrm as int, nrm as int);
                            lemma_mdt_le_m(rel@.y, SCALE as int, nrm as int, nrm as int);
                            lemma_mdt_le_m(rel@.z, SCALE as int, nrm as int, nrm as int);
                        }
                        rel.scaled(SCALE, nrm)
                    } else {
                        rel
                    };
                    proof {
                        lemma_mdt_scale_down(
                            self.max_acceleration as int,
                            TIME_HORIZON as int - t as int,
                            TIME_HORIZON as int,
                            COORD_LIMIT as int,
                        );
                        lemma_mdt_abs(
                            self.max_acceleration as int,
                            TIME_HORIZON as int - t as int,
                            TIME_HORIZON as int,
                        );
                    }
                    let mag: i64 = mul_div(self.max_acceleration, TIME_HORIZON - t, TIME_HORIZON);
                    proof {
                        assert(in_range(dir@, 4 * COORD_LIMIT as int));
                        lemma_mdt_bound(dir@.x, mag as int, SCALE as int, 4 * COORD_LIMIT as int);
                        lemma_mdt_bound(dir@.y, mag as int, SCALE as int, 4 * COORD_LIMIT as int);
                        lemma_mdt_bound(dir@.z, mag as int, SCALE as int, 4 * COORD_LIMIT as int);
                    }
                    let one_force: Vec3Fix = dir.scaled(mag, SCALE);
                    proof {
                        assert(one_force@ == one_force_g);
                        assert(in_range(one_force@, CONTRIB_BOUND as int));
                    }
                    total = total.add(one_force);
                    added = true;
                }
            }
            proof {
                if !added {
                    assert(one_force_g == zero3());
                    assert(add3(
                        total_force_prefix(self.current, radius_g, ma_g, self.targets@, idx as int),
                        zero3(),
                    ) == total_force_prefix(self.current, radius_g, ma_g, self.targets@, idx as int));
                }
                assert(total@ == total_force_prefix(
                    self.current,
                    radius_g,
                    ma_g,
                    self.targets@,
                    idx as int + 1,
                ));
            }
            idx = idx + 1;
        }
        total
    }
}

/// A predicted contact time is never negative: the smaller quadratic root
/// is only reported when the spheres are not yet in contact, and then the
/// discriminant's square root cannot exceed `b`.
pub proof fn lemma_ttc_nonneg(agent: Entity, radius: int, target: Entity, t: int)
    requires
        ttc_of(agent, radius, target) == Ttc::At(t),
    ensures
        0 <= t,
{
    let x = sub3(target.position@, agent.position@);
    let c = dot3(x, x) - radius * radius;
    let v = sub3(agent.velocity@, target.velocity@);
    let a = dot3(v, v);
    let b = dot3(x, x);
    let discr = b * b - a * c;
    lemma_len2_nonneg(x);
    lemma_len2_nonneg(v);
    assert(c >= 0 && a > 0 && discr > 0);
    lemma_sqrt_floor_exists(discr);
    let s = sqrt_floor(discr);
    assert(a * c >= 0) by (nonlinear_arith)
        requires
            a > 0,
            c >= 0;
    assert(s <= b) by (nonlinear_arith)
        requires
            is_sqrt_floor(discr, s),
            discr <= b * b,
            0 <= b;
    assert(0 <= (b - s) * (SCALE as int)) by (nonlinear_arith)
        requires
            0 <= b - s;
    lemma_div_pos_is_pos((b - s) * (SCALE as int), a);
}

/// An obstacle already overlapping the agent contributes no force this
/// tick: immediate overlap is flagged (time zero) but deliberately skipped
/// in the sum, so no undefined-direction force is injected.
pub proof fn lemma_overlap_contributes_nothing(
    agent: Entity,
    radius: int,
    max_acceleration: int,
    target: Entity,
)
    requires
        ttc_of(agent, radius, target) == Ttc::Overlapping || ttc_of(agent, radius, target)
            == Ttc::At(0),
    ensures
        contribution_of(agent, radius, max_acceleration, target) == zero3(),
{
}

/// An obstacle whose predicted contact lies beyond the look-ahead horizon
/// (or never happens) contributes exactly zero to the total force.
pub proof fn lemma_beyond_horizon_contributes_nothing(
    agent: Entity,
    radius: int,
    max_acceleration: int,
    target: Entity,
    t: int,
)
    requires
        ttc_of(agent, radius, target) == Ttc::Never || (ttc_of(agent, radius, target) == Ttc::At(t)
            && t > TIME_HORIZON as int),
    ensures
        contribution_of(agent, radius, max_acceleration, target) == zero3(),
{
}

/// Removing an obstacle that contributes nothing leaves every prefix sum
/// unchanged (up to the shift of indices past the removed obstacle).
proof fn lemma_total_prefix_remove(
    agent: Entity,
    radius: int,
    max_acceleration: int,
    ts: Seq<Entity>,
    i: int,
    n: int,
)
    requires
        0 <= i < ts.len(),
        contribution_of(agent, radius, max_acceleration, ts[i]) == zero3(),
        0 <= n <= ts.len() - 1,
    ensures
        n <= i ==> total_force_prefix(agent, radius, max_acceleration, ts.remove(i), n)
            == total_force_prefix(agent, radius, max_acceleration, ts, n),
        n > i ==> total_force_prefix(agent, radius, max_acceleration, ts.remove(i), n)
            == total_force_prefix(agent, radius, max_acceleration, ts, n + 1),
    decreases n,
{
    let rem = ts.remove(i);
    if n > 0 {
        lemma_total_prefix_remove(agent, radius, max_acceleration, ts, i, n - 1);
        assert(total_force_prefix(agent, radius, max_acceleration, rem, n) == add3(
            total_force_prefix(agent, radius, max_acceleration, rem, n - 1),
            contribution_of(agent, radius, max_acceleration, rem[n - 1]),
        ));
        if n <= i {
            assert(rem[n - 1] == ts[n - 1]);
            assert(total_force_prefix(agent, radius, max_acceleration, ts, n) == add3(
                total_force_prefix(agent, radius, max_acceleration, ts, n - 1),
                contribution_of(agent, radius, max_acceleration, ts[n - 1]),
            ));
        } else {
            assert(rem[n - 1] == ts[n]);
            assert(total_force_prefix(agent, radius, max_acceleration, ts, n + 1) == add3(
                total_force_prefix(agent, radius, max_acceleration, ts, n),
                contribution_of(agent, radius, max_acceleration, ts[n]),
            ));
            if n == i + 1 {
                assert(total_force_prefix(agent, radius, max_acceleration, ts, n) == add3(
                    total_force_prefix(agent, radius, max_acceleration, ts, n - 1),
                    contribution_of(agent, radius, max_acceleration, ts[n - 1]),
                ));
                assert(contribution_of(agent, radius, max_acceleration, ts[n - 1]) == zero3());
                assert(add3(
                    total_force_prefix(agent, radius, max_acceleration, ts, n - 1),
                    zero3(),
                ) == total_force_prefix(agent, radius, max_acceleration, ts, n - 1));
            }
        }
    }
}

/// Dropping an obstacle that contributes nothing (already overlapping, or
/// predicted beyond the horizon) leaves the total force unchanged: the
/// returned total is the sum over the remaining obstacles only.
pub proof fn lemma_zero_contribution_removable(
    agent: Entity,
    radius: int,
    max_acceleration: int,
    ts: Seq<Entity>,
    i: int,
)
    requires
        0 <= i < ts.len(),
        contribution_of(agent, radius, max_acceleration, ts[i]) == zero3(),
    ensures
        total_force(agent, radius, max_acceleration, ts.remove(i)) == total_force(
            agent,
            radius,
            max_acceleration,
            ts,
        ),
{
    let n: int = ts.len() - 1;
    lemma_total_prefix_remove(agent, radius, max_acceleration, ts, i, n);
    if i == n {
        assert(add3(
            total_force_prefix(agent, radius, max_acceleration, ts, n),
            zero3(),
        ) == total_force_prefix(agent, radius, max_acceleration, ts, n));
    }
}

/// An already-overlapping obstacle can be dropped from the set without
/// changing the total force: it contributes zero, and the total is the sum
/// over the remaining obstacles only.
pub proof fn lemma_overlapping_obstacle_removable(
    agent: Entity,
    radius: int,
    max_acceleration: int,
    ts: Seq<Entity>,
    i: int,
)
    requires
        0 <= i < ts.len(),
        ttc_of(agent, radius, ts[i]) == Ttc::Overlapping,
    ensures
        total_force(agent, radius, max_acceleration, ts.remove(i)) == total_force(
            agent,
            radius,
            max_acceleration,
            ts,
        ),
{
    lemma_overlap_contributes_nothing(agent, radius, max_acceleration, ts[i]);
    lemma_zero_contribution_removable(agent, radius, max_acceleration, ts, i);
}

/// An obstacle predicted beyond the look-ahead horizon can be dropped from
/// the set without changing the total force.
pub proof fn lemma_beyond_horizon_obstacle_removable(
    agent: Entity,
    radius: int,
    max_acceleration: int,
    ts: Seq<Entity>,
    i: int,
    t: int,
)
    requires
        0 <= i < ts.len(),
        ttc_of(agent, radius, ts[i]) == Ttc::At(t),
        t > TIME_HORIZON as int,
    ensures
        total_force(agent, radius, max_acceleration, ts.remove(i)) == total_force(
            agent,
            radius,
            max_acceleration,
            ts,
        ),
{
    lemma_beyond_horizon_contributes_nothing(agent, radius, max_acceleration, ts[i], t);
    lemma_zero_contribution_removable(agent, radius, max_acceleration, ts, i);
}

/// A head-on pair approaching along one axis, not yet in contact: when the
/// relative closing speed equals the separation, the predicted contact time
/// is exactly the scaled `(separation - combined radius) / closing speed`.
pub proof fn lemma_head_on_closing_time(
    agent: Entity,
    radius: int,
    target: Entity,
    d: int,
    v: int,
)
    requires
        sub3(target.position@, agent.position@) == (V3 { x: d, y: 0, z: 0 }),
        sub3(agent.velocity@, target.velocity@) == (V3 { x: v, y: 0, z: 0 }),
        1 <= radius < d,
        v == d,
    ensures
        ttc_of(agent, radius, target) == Ttc::At((d - radius) * (SCALE as int) / v),
{
    let x = sub3(target.position@, agent.position@);
    let c = dot3(x, x) - radius * radius;
    let a = dot3(sub3(agent.velocity@, target.velocity@), sub3(agent.velocity@, target.velocity@));
    let b = dot3(x, x);
    let discr = b * b - a * c;
    assert(b == d * d && a == v * v) by (nonlinear_arith)
        requires
            x == (V3 { x: d, y: 0, z: 0 }),
            sub3(agent.velocity@, target.velocity@) == (V3 { x: v, y: 0, z: 0 }),
            b == dot3(x, x),
            a == dot3(
                sub3(agent.velocity@, target.velocity@),
                sub3(agent.velocity@, target.velocity@),
            );
    assert(c > 0 && a > 0) by (nonlinear_arith)
        requires
            1 <= radius < d,
            v == d,
            c == d * d - radius * radius,
            a == v * v;
    assert(discr == (d * radius) * (d * radius) && discr > 0) by (nonlinear_arith)
        requires
            discr == (d * d) * (d * d) - (v * v) * (d * d - radius * radius),
            v == d,
            1 <= radius < d;
    assert(0 <= d * radius) by (nonlinear_arith)
        requires
            1 <= radius < d;
    lemma_sqrt_floor_square(d * radius);
    let num = (b - sqrt_floor(discr)) * (SCALE as int);
    assert(num == d * ((d - radius) * (SCALE as int))) by (nonlinear_arith)
        requires
            num == (d * d - d * radius) * (SCALE as int);
    assert(0 <= (d - radius) * (SCALE as int)) by (nonlinear_arith)
        requires
            radius < d,
            0 < SCALE as int;
    lemma_div_multiples_vanish((d - radius) * (SCALE as int), d);
    assert(0 <= num) by (nonlinear_arith)
        requires
            num == d * ((d - radius) * (SCALE as int)),
            1 <= d,
            0 <= (d - radius) * (SCALE as int);
    lemma_div_denominator(num, d, d);
    assert(a == d * d) by (nonlinear_arith)
        requires
            a == v * v,
            v == d;
    assert(num / a == (d - radius) * (SCALE as int) / v);
}

} // verus!
