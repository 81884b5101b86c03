//! Tests of the predictive collision avoidance: the quadratic
//! time-to-collision solve, the horizon cut-off, the overlap skip, and the
//! summed repulsion force.

use steering::behaviors::behavior::SteeringBehavior;
use steering::behaviors::collision_avoidance::{CollisionAvoidance, Entity, TimeToCollision};
use steering::vec3::Vec3Fix;

fn entity(px: i64, py: i64, pz: i64, vx: i64, vy: i64, vz: i64) -> Entity {
    Entity {
        position: Vec3Fix::new(px, py, pz),
        velocity: Vec3Fix::new(vx, vy, vz),
    }
}

fn avoidance(current: Entity, radius: i64, targets: Vec<Entity>) -> CollisionAvoidance {
    CollisionAvoidance {
        max_acceleration: 250_000,
        radius,
        current,
        targets,
    }
}

#[test]
fn zero_relative_velocity_never_collides() {
    let ca = avoidance(entity(0, 0, 0, 3000, 0, 0), 2000, vec![]);
    let same_motion = entity(9000, 0, 0, 3000, 0, 0);
    assert_eq!(ca.get_time_to_collision(&same_motion), TimeToCollision::Never);
}

#[test]
fn overlapping_pair_reports_overlap() {
    let ca = avoidance(entity(0, 0, 0, 0, 0, 0), 2000, vec![]);
    let near = entity(1000, 0, 0, -500, 0, 0);
    assert_eq!(ca.get_time_to_collision(&near), TimeToCollision::Overlapping);
}

#[test]
fn diverging_pair_never_within_radius() {
    // Fast sideways motion past a separated obstacle: the discriminant of
    // the closest-approach test is negative, so no contact is predicted.
    let ca = avoidance(entity(0, 0, 0, 0, 0, 4000), 1000, vec![]);
    let aside = entity(3000, 0, 0, 0, 0, 0);
    assert_eq!(ca.get_time_to_collision(&aside), TimeToCollision::Never);
}

#[test]
fn head_on_tau_matches_quadratic_root() {
    // Separation twenty units, combined radius two, equal and opposite
    // speeds of five units: tau is the exact smaller root of the quadratic
    // test, 0.530 time units.
    let ca = avoidance(entity(0, 0, 0, 5000, 0, 0), 2000, vec![]);
    let oncoming = entity(20_000, 0, 0, -5000, 0, 0);
    assert_eq!(ca.get_time_to_collision(&oncoming), TimeToCollision::At(530));
}

#[test]
fn head_on_tau_matches_separation_over_speed() {
    // Head-on along one axis with closing speed equal to the separation:
    // tau is exactly (separation - radius) / speed, here (3 - 1) / 3 time
    // units, truncated to thousandths.
    let ca = avoidance(entity(0, 0, 0, 3000, 0, 0), 1000, vec![]);
    let oncoming = entity(3000, 0, 0, 0, 0, 0);
    assert_eq!(
        ca.get_time_to_collision(&oncoming),
        TimeToCollision::At((3000 - 1000) * 1000 / 3000)
    );
    assert_eq!(ca.get_time_to_collision(&oncoming), TimeToCollision::At(666));
}

#[test]
fn combined_radius_drives_the_prediction() {
    // The same head-on geometry with a smaller combined radius predicts a
    // later contact; with radius zero the paths merely graze (discriminant
    // zero) and no contact is reported.
    let oncoming = entity(3000, 0, 0, 0, 0, 0);
    let wide = avoidance(entity(0, 0, 0, 3000, 0, 0), 1000, vec![]);
    let narrow = avoidance(entity(0, 0, 0, 3000, 0, 0), 500, vec![]);
    let point = avoidance(entity(0, 0, 0, 3000, 0, 0), 0, vec![]);
    assert_eq!(wide.get_time_to_collision(&oncoming), TimeToCollision::At(666));
    assert_eq!(
        narrow.get_time_to_collision(&oncoming),
        TimeToCollision::At(833)
    );
    assert_eq!(point.get_time_to_collision(&oncoming), TimeToCollision::Never);
}

#[test]
fn empty_obstacle_set_yields_zero_force() {
    let ca = avoidance(entity(0, 0, 0, 5000, 0, 0), 2000, vec![]);
    assert_eq!(ca.get_steering_force(), Vec3Fix::new(0, 0, 0));
}

#[test]
fn beyond_horizon_contributes_no_force() {
    // The same head-on pair as above predicts contact at 0.530 time units,
    // far beyond the 0.1 horizon: the total force is exactly zero.
    let ca = avoidance(
        entity(0, 0, 0, 5000, 0, 0),
        2000,
        vec![entity(20_000, 0, 0, -5000, 0, 0)],
    );
    assert_eq!(ca.get_steering_force(), Vec3Fix::new(0, 0, 0));
}

#[test]
fn imminent_collision_repels_away() {
    // Obstacle 2.2 units ahead, approached at 2.2 units per time unit:
    // contact predicted at 0.090, inside the horizon. The force points in
    // -x, away from the obstacle, along the relative position at contact.
    let ca = avoidance(
        entity(0, 0, 0, 2200, 0, 0),
        2000,
        vec![entity(2200, 0, 0, 0, 0, 0)],
    );
    let f = ca.get_steering_force();
    assert_eq!(f, Vec3Fix::new(-50_050, 0, 0));
    assert!(f.x < 0);
}

#[test]
fn overlapping_obstacles_are_skipped() {
    // Two obstacles already inside the combined radius contribute zero
    // force each: the total equals the sum over the remaining obstacle.
    let imminent = entity(2200, 0, 0, 0, 0, 0);
    let with_overlaps = avoidance(
        entity(0, 0, 0, 2200, 0, 0),
        2000,
        vec![
            entity(500, 0, 0, 0, 0, 0),
            imminent,
            entity(0, 900, 0, 100, 0, 0),
        ],
    );
    let alone = avoidance(entity(0, 0, 0, 2200, 0, 0), 2000, vec![imminent]);
    assert_eq!(with_overlaps.get_steering_force(), alone.get_steering_force());
    assert_eq!(with_overlaps.get_steering_force(), Vec3Fix::new(-50_050, 0, 0));
}

#[test]
fn diagonal_approach_normalizes_direction() {
    // All three axis components of the relative position at contact are
    // nonzero, so the direction is normalized before scaling.
    let ca = avoidance(
        entity(0, 0, 0, 2000, 2000, 2000),
        1600,
        vec![entity(1000, 1000, 1000, 0, 0, 0)],
    );
    assert_eq!(
        ca.get_steering_force(),
        Vec3Fix::new(-15_867, -15_867, -15_867)
    );
}

#[test]
fn sums_contributions_from_all_obstacles() {
    // Cumulative repulsion: with two obstacles inside the horizon the total
    // is the vector sum of both contributions, not just the nearest threat.
    let ahead = entity(2200, 0, 0, 0, 0, 0);
    let behind = entity(-2200, 0, 0, 0, 0, 0);
    let both = avoidance(entity(0, 0, 0, 2200, 0, 0), 2000, vec![ahead, behind]);
    let only_ahead = avoidance(entity(0, 0, 0, 2200, 0, 0), 2000, vec![ahead]);
    let only_behind = avoidance(entity(0, 0, 0, 2200, 0, 0), 2000, vec![behind]);
    let fa = only_ahead.get_steering_force();
    let fb = only_behind.get_steering_force();
    assert_eq!(
        both.get_steering_force(),
        Vec3Fix::new(fa.x + fb.x, fa.y + fb.y, fa.z + fb.z)
    );
}
