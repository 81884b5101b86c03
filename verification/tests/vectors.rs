//! Tests of the fixed-point vector primitives: exact lengths, truncating
//! rescales, and the length clamp.

use rand::Rng;
use steering::vec3::Vec3Fix;

#[test]
fn length_rounds_down() {
    assert_eq!(Vec3Fix::new(3000, 4000, 0).length(), 5000);
    assert_eq!(Vec3Fix::new(1, 1, 1).length(), 1);
    assert_eq!(Vec3Fix::new(0, 0, 0).length(), 0);
    assert_eq!(Vec3Fix::new(0, -2, 0).length(), 2);
}

#[test]
fn dot_product_is_exact() {
    let a = Vec3Fix::new(2, -3, 4);
    let b = Vec3Fix::new(5, 6, -7);
    assert_eq!(a.dot(b), 2 * 5 - 3 * 6 - 4 * 7);
    assert_eq!(a.len2(), 4 + 9 + 16);
}

#[test]
fn scaled_truncates_toward_zero() {
    let v = Vec3Fix::new(-5, 0, 7);
    assert_eq!(v.scaled(1, 2), Vec3Fix::new(-2, 0, 3));
    assert_eq!(v.scaled(3, 1), Vec3Fix::new(-15, 0, 21));
}

#[test]
fn clamp_leaves_short_vectors_unchanged() {
    let v = Vec3Fix::new(3, 4, 0);
    assert_eq!(v.clamp_length_max(5), v);
    assert_eq!(v.clamp_length_max(1_000_000), v);
}

#[test]
fn clamp_rescales_long_vectors() {
    let v = Vec3Fix::new(30_000, 40_000, 0);
    assert_eq!(v.clamp_length_max(5000), Vec3Fix::new(3000, 4000, 0));
    assert_eq!(v.clamp_length_max(0), Vec3Fix::new(0, 0, 0));
}

#[test]
fn randomized_clamp_never_exceeds_limit() {
    let mut rng = rand::thread_rng();
    for _ in 0..1000 {
        let v = Vec3Fix::new(
            rng.gen_range(-1_000_000..1_000_000),
            rng.gen_range(-1_000_000..1_000_000),
            rng.gen_range(-1_000_000..1_000_000),
        );
        let max: i64 = rng.gen_range(0..2_000_000);
        let c = v.clamp_length_max(max);
        assert!(c.len2() <= (max as i128) * (max as i128));
        assert!(c.len2() <= v.len2());
    }
}
