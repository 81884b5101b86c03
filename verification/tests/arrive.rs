//! Tests of the Arrive behavior: boundary continuity of the desired speed,
//! the first-tick clamp, and the acceleration limits under random inputs.

use rand::Rng;
use steering::behaviors::arrive::Arrive;
use steering::behaviors::behavior::SteeringBehavior;
use steering::math::mul_div;
use steering::vec3::Vec3Fix;

fn arrive_toward(target: Vec3Fix) -> Arrive {
    Arrive {
        target_pos: target,
        ..Default::default()
    }
}

#[test]
fn default_matches_stock_tuning() {
    let a = Arrive::default();
    assert_eq!(a.current_pos, Vec3Fix::new(0, 0, 0));
    assert_eq!(a.current_velocity, Vec3Fix::new(0, 0, 0));
    assert_eq!(a.target_pos, Vec3Fix::new(0, 0, 0));
    assert_eq!(a.slow_radius, 1500);
    assert_eq!(a.max_speed, 7500);
    assert_eq!(a.time_to_target, 1);
    assert_eq!(a.max_acceleration, 250_000);
    assert_eq!(a.max_deceleration, 500_000);
}

#[test]
fn boundary_speed_equals_max_speed() {
    // Distance exactly the slow radius: the desired speed must be exactly
    // max_speed. With time_to_target of one time unit and zero current
    // velocity the returned (unclamped) force equals the desired velocity.
    let a = Arrive {
        target_pos: Vec3Fix::new(1500, 0, 0),
        time_to_target: 1000,
        ..Default::default()
    };
    assert_eq!(a.get_steering_force(), Vec3Fix::new(7500, 0, 0));
}

#[test]
fn half_radius_gives_half_speed() {
    let a = Arrive {
        target_pos: Vec3Fix::new(750, 0, 0),
        time_to_target: 1000,
        ..Default::default()
    };
    assert_eq!(a.get_steering_force(), Vec3Fix::new(3750, 0, 0));
}

#[test]
fn first_tick_force_clamped_to_max_acceleration() {
    // Agent at the origin at rest, target ten units along +x, stock tuning:
    // the raw force (7_500_000) vastly exceeds the limit, so the returned
    // force points along +x with magnitude exactly max_acceleration.
    let a = arrive_toward(Vec3Fix::new(10_000, 0, 0));
    assert_eq!(a.get_steering_force(), Vec3Fix::new(250_000, 0, 0));
}

#[test]
fn braking_force_clamped_to_max_deceleration() {
    // Overshooting the target at high speed: the corrective force opposes
    // the direction of travel and is clamped to max_deceleration instead.
    let a = Arrive {
        current_velocity: Vec3Fix::new(20_000, 0, 0),
        target_pos: Vec3Fix::new(10_000, 0, 0),
        ..Default::default()
    };
    assert_eq!(a.get_steering_force(), Vec3Fix::new(-500_000, 0, 0));
}

#[test]
fn diagonal_target_scales_each_axis_exactly() {
    // Three-four-five triangle: distance 5 units, outside the slow radius,
    // so the desired velocity is the direction normalized to max_speed.
    let a = Arrive {
        target_pos: Vec3Fix::new(3000, 4000, 0),
        time_to_target: 1000,
        ..Default::default()
    };
    assert_eq!(a.get_steering_force(), Vec3Fix::new(4500, 6000, 0));
}

#[test]
fn randomized_force_respects_limits() {
    let mut rng = rand::thread_rng();
    for _ in 0..500 {
        let pos = Vec3Fix::new(
            rng.gen_range(-100_000..100_000),
            rng.gen_range(-100_000..100_000),
            rng.gen_range(-100_000..100_000),
        );
        let target = Vec3Fix::new(
            pos.x + rng.gen_range(1..50_000),
            pos.y + rng.gen_range(-50_000..50_000),
            pos.z + rng.gen_range(-50_000..50_000),
        );
        let vel = Vec3Fix::new(
            rng.gen_range(-7500..7500),
            rng.gen_range(-7500..7500),
            rng.gen_range(-7500..7500),
        );
        let a = Arrive {
            current_pos: pos,
            current_velocity: vel,
            target_pos: target,
            ..Default::default()
        };

        // Recompute the unclamped velocity-error force from the library's
        // own exact primitives to know which limit applies.
        let direction = target.sub(pos);
        let distance = direction.length();
        let target_speed = if distance > a.slow_radius {
            a.max_speed
        } else {
            mul_div(a.max_speed, distance, a.slow_radius)
        };
        let desired = direction.scaled(target_speed, distance);
        let raw = desired.sub(vel).scaled(1000, a.time_to_target);

        let f = a.get_steering_force();
        let limit = if raw.dot(direction) > 0 {
            a.max_acceleration as i128
        } else {
            a.max_deceleration as i128
        };
        assert!(f.len2() <= limit * limit);
    }
}
