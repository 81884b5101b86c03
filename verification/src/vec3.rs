//! Fixed-point 3D vectors.
//!
//! `Vec3Fix` is the executable type: each component is an `i64` holding
//! thousandths of a world unit. Its mathematical model is `V3`, a triple of
//! unbounded integers, and every operation's contract states the exact
//! resulting model value.

use crate::math::{
    abs1, is_sqrt_floor, isqrt_u128, lemma_div_mul_le, lemma_mdt_abs, lemma_mdt_le_m,
    lemma_sqrt_ceil_bounds, lemma_sqrt_floor_exists, lemma_sqrt_floor_is, mdt, mul_div,
    sqrt_ceil, sqrt_floor,
};
use vstd::prelude::*;

verus! {

/// Magnitude bound up to which dot products and squared lengths are
/// guaranteed free of overflow (one million world units).
pub const DOT_RANGE: i64 = 1_000_000_000_000;

/// Mathematical model of a 3D vector: unbounded integer components.
pub struct V3 {
    pub x: int,
    pub y: int,
    pub z: int,
}

/// The zero vector.
pub open spec fn zero3() -> V3 {
    V3 { x: 0, y: 0, z: 0 }
}

/// Componentwise sum.
pub open spec fn add3(a: V3, b: V3) -> V3 {
    V3 { x: a.x + b.x, y: a.y + b.y, z: a.z + b.z }
}

/// Componentwise difference.
pub open spec fn sub3(a: V3, b: V3) -> V3 {
    V3 { x: a.x - b.x, y: a.y - b.y, z: a.z - b.z }
}

/// Dot product.
pub open spec fn dot3(a: V3, b: V3) -> int {
    a.x * b.x + a.y * b.y + a.z * b.z
}

/// Squared Euclidean length.
pub open spec fn len2(v: V3) -> int {
    dot3(v, v)
}

/// Each component times `m / n`, truncated toward zero.
pub open spec fn scale3(v: V3, m: int, n: int) -> V3 {
    V3 { x: mdt(v.x, m, n), y: mdt(v.y, m, n), z: mdt(v.z, m, n) }
}

/// Every component lies in `[-bound, bound]`.
pub open spec fn in_range(v: V3, bound: int) -> bool {
    &&& -bound <= v.x <= bound
    &&& -bound <= v.y <= bound
    &&& -bound <= v.z <= bound
}

/// `v` unchanged when its length is at most `max`, otherwise `v` rescaled to
/// length at most `max` (each component times `max` over the length of `v`
/// rounded up).
pub open spec fn clamp3(v: V3, max: int) -> V3 {
    if len2(v) <= max * max {
        v
    } else {
        scale3(v, max, sqrt_ceil(len2(v)))
    }
}

/// A squared length is never negative.
pub proof fn lemma_len2_nonneg(v: V3)
    by (nonlinear_arith)
    ensures
        len2(v) >= 0,
        v.x * v.x <= len2(v),
        v.y * v.y <= len2(v),
        v.z * v.z <= len2(v),
{
}

/// No component of a vector exceeds the vector's length in magnitude.
pub proof fn lemma_comp_le_norm(v: V3, s: int)
    requires
        is_sqrt_floor(len2(v), s),
    ensures
        in_range(v, s),
{
    lemma_len2_nonneg(v);
    assert(in_range(v, s)) by (nonlinear_arith)
        requires
            is_sqrt_floor(len2(v), s),
            v.x * v.x <= len2(v),
            v.y * v.y <= len2(v),
            v.z * v.z <= len2(v);
}

/// Dot products of vectors within `DOT_RANGE` stay within `i128`.
pub proof fn lemma_dot3_bound(a: V3, b: V3, bound: int)
    by (nonlinear_arith)
    requires
        0 <= bound,
        in_range(a, bound),
        in_range(b, bound),
    ensures
        -3 * bound * bound <= dot3(a, b) <= 3 * bound * bound,
{
}

/// Clamping does what its name says: the result of `clamp3` has squared
/// length at most `max * max`, or the vector's own when that is smaller.
pub proof fn lemma_clamp3_len(v: V3, max: int)
    requires
        0 <= max,
    ensures
        len2(clamp3(v, max)) <= len2(v),
        len2(clamp3(v, max)) <= max * max,
{
    lemma_len2_nonneg(v);
    if len2(v) > max * max {
        let s: int = sqrt_floor(len2(v));
        lemma_sqrt_floor_exists(len2(v));
        let n: int = sqrt_ceil(len2(v));
        lemma_sqrt_ceil_bounds(len2(v), s);
        assert(1 <= n) by (nonlinear_arith)
            requires
                0 <= n,
                n * n >= len2(v),
                len2(v) > max * max,
                0 <= max;
        let c: V3 = scale3(v, max, n);
        lemma_scaled_sq(v.x, max, n, c.x);
        lemma_scaled_sq(v.y, max, n, c.y);
        lemma_scaled_sq(v.z, max, n, c.z);
        assert(len2(c) * (n * n) <= len2(v) * (max * max)) by (nonlinear_arith)
            requires
                c.x * c.x * (n * n) <= v.x * v.x * (max * max),
                c.y * c.y * (n * n) <= v.y * v.y * (max * max),
                c.z * c.z * (n * n) <= v.z * v.z * (max * max),
                len2(c) == c.x * c.x + c.y * c.y + c.z * c.z,
                len2(v) == v.x * v.x + v.y * v.y + v.z * v.z;
        assert(len2(c) <= max * max) by (nonlinear_arith)
            requires
                len2(c) * (n * n) <= len2(v) * (max * max),
                len2(v) <= n * n,
                0 <= max,
                1 <= n;
        assert(len2(c) <= len2(v)) by (nonlinear_arith)
            requires
                0 <= len2(c),
                len2(c) <= max * max,
                max * max < len2(v),
        ;
    }
}

/// One component of a truncated rescale, squared and multiplied back by the
/// squared divisor, stays below the exact product.
proof fn lemma_scaled_sq(a: int, m: int, n: int, q: int)
    requires
        1 <= n,
        0 <= m,
        q == mdt(a, m, n),
    ensures
        q * q * (n * n) <= a * a * (m * m),
        0 <= q * q,
{
    lemma_mdt_abs(a, m, n);
    lemma_div_mul_le(abs1(a) * m, n);
    assert(q * q * (n * n) <= a * a * (m * m) && 0 <= q * q) by (nonlinear_arith)
        requires
            abs1(q) == abs1(a) * m / n,
            0 <= abs1(q),
            (abs1(a) * m / n) * n <= abs1(a) * m,
            abs1(a) == (if a >= 0 { a } else { -a }),
            abs1(q) == (if q >= 0 { q } else { -q }),
            1 <= n,
            0 <= m;
}

/// Fixed-point 3D vector: components in thousandths of a world unit.
#[derive(Clone, Copy, PartialEq, Eq, Structural, Debug)]
pub struct Vec3Fix {
    pub x: i64,
    pub y: i64,
    pub z: i64,
}

impl View for Vec3Fix {
    type V = V3;

    open spec fn view(&self) -> V3 {
        V3 { x: self.x as int, y: self.y as int, z: self.z as int }
    }
}

impl Vec3Fix {
    /// The vector with the given components.
    pub fn new(x: i64, y: i64, z: i64) -> (r: Self)
        ensures
            r@ == (V3 { x: x as int, y: y as int, z: z as int }),
    {
        Vec3Fix { x, y, z }
    }

    /// The zero vector.
    pub fn zero() -> (r: Self)
        ensures
            r@ == zero3(),
    {
        Vec3Fix { x: 0, y: 0, z: 0 }
    }

    /// Componentwise sum.
    pub fn add(self, other: Self) -> (r: Self)
        requires
            i64::MIN <= self@.x + other@.x <= i64::MAX,
            i64::MIN <= self@.y + other@.y <= i64::MAX,
            i64::MIN <= self@.z + other@.z <= i64::MAX,
        ensures
            r@ == add3(self@, other@),
    {
        Vec3Fix { x: self.x + other.x, y: self.y + other.y, z: self.z + other.z }
    }

    /// Componentwise difference.
    pub fn sub(self, other: Self) -> (r: Self)
        requires
            i64::MIN <= self@.x - other@.x <= i64::MAX,
            i64::MIN <= self@.y - other@.y <= i64::MAX,
            i64::MIN <= self@.z - other@.z <= i64::MAX,
        ensures
            r@ == sub3(self@, other@),
    {
        Vec3Fix { x: self.x - other.x, y: self.y - other.y, z: self.z - other.z }
    }

    /// Dot product, exact.
    pub fn dot(self, other: Self) -> (r: i128)
        requires
            in_range(self@, DOT_RANGE as int),
            in_range(other@, DOT_RANGE as int),
        ensures
            r as int == dot3(self@, other@),
    {
        proof {
            lemma_dot3_bound(self@, other@, DOT_RANGE as int);
            assert(abs1((self@.x) * (other@.x)) <= (DOT_RANGE as int) * (DOT_RANGE as int)
                && abs1((self@.y) * (other@.y)) <= (DOT_RANGE as int) * (DOT_RANGE as int)
                && abs1((self@.z) * (other@.z)) <= (DOT_RANGE as int) * (DOT_RANGE as int))
                by (nonlinear_arith)
                requires
                    in_range(self@, DOT_RANGE as int),
                    in_range(other@, DOT_RANGE as int);
        }
        (self.x as i128) * (other.x as i128) + (self.y as i128) * (other.y as i128) + (
        self.z as i128) * (other.z as i128)
    }

    /// Squared Euclidean length, exact.
    pub fn len2(self) -> (r: i128)
        requires
            in_range(self@, DOT_RANGE as int),
        ensures
            r as int == len2(self@),
            0 <= r,
    {
        proof {
            lemma_len2_nonneg(self@);
        }
        self.dot(self)
    }

    /// Euclidean length, rounded down.
    pub fn length(self) -> (r: i64)
        requires
            in_range(self@, DOT_RANGE as int),
        ensures
            r as int == sqrt_floor(len2(self@)),
            is_sqrt_floor(len2(self@), r as int),
            0 <= r,
    {
        let d2: i128 = self.len2();
        let s: u128 = isqrt_u128(d2 as u128);
        proof {
            lemma_sqrt_floor_is(d2 as int, s as int);
            lemma_dot3_bound(self@, self@, DOT_RANGE as int);
            assert((s as int) <= 2 * (DOT_RANGE as int)) by (nonlinear_arith)
                requires
                    (s as int) * (s as int) <= d2 as int,
                    d2 as int <= 3 * (DOT_RANGE as int) * (DOT_RANGE as int),
                    0 <= s as int,
                    0 <= d2 as int;
        }
        s as i64
    }

    /// Each component times `m / n`, truncated toward zero.
    pub fn scaled(self, m: i64, n: i64) -> (r: Self)
        requires
            0 <= m,
            1 <= n,
            -(i64::MAX as int) <= mdt(self@.x, m as int, n as int) <= i64::MAX as int,
            -(i64::MAX as int) <= mdt(self@.y, m as int, n as int) <= i64::MAX as int,
            -(i64::MAX as int) <= mdt(self@.z, m as int, n as int) <= i64::MAX as int,
        ensures
            r@ == scale3(self@, m as int, n as int),
    {
        Vec3Fix {
            x: mul_div(self.x, m, n),
            y: mul_div(self.y, m, n),
            z: mul_div(self.z, m, n),
        }
    }

    /// `self` if its length is at most `max`, otherwise `self` rescaled so
    /// that its length cannot exceed `max` (see `lemma_clamp3_len`).
    pub fn clamp_length_max(self, max: i64) -> (r: Self)
        requires
            0 <= max <= DOT_RANGE,
            in_range(self@, DOT_RANGE as int),
        ensures
            r@ == clamp3(self@, max as int),
    {
        let d2: i128 = self.len2();
        proof {
            assert((max as int) * (max as int) <= i128::MAX as int) by (nonlinear_arith)
                requires
                    0 <= max as int <= DOT_RANGE as int;
        }
        let mm: i128 = (max as i128) * (max as i128);
        if d2 <= mm {
            self
        } else {
            let s: i64 = self.length();
            proof {
                lemma_dot3_bound(self@, self@, DOT_RANGE as int);
                assert((s as int) * (s as int) <= i128::MAX as int && (s as int) + 1
                    <= i64::MAX as int) by (nonlinear_arith)
                    requires
                        is_sqrt_floor(len2(self@), s as int),
                        len2(self@) <= 3 * (DOT_RANGE as int) * (DOT_RANGE as int),
                        0 <= s as int;
                lemma_sqrt_ceil_bounds(len2(self@), s as int);
                assert(1 <= sqrt_ceil(len2(self@))) by (nonlinear_arith)
                    requires
                        0 <= s as int,
                        is_sqrt_floor(len2(self@), s as int),
                        sqrt_ceil(len2(self@)) >= s as int,
                        sqrt_ceil(len2(self@)) * sqrt_ceil(len2(self@)) >= len2(self@),
                        len2(self@) > (max as int) * (max as int),
                        0 <= max;
            }
            let n: i64 = if (s as i128) * (s as i128) == d2 {
                s
            } else {
                s + 1
            };
            proof {
                assert(n as int == sqrt_ceil(len2(self@)));
                lemma_comp_le_norm(self@, s as int);
                lemma_mdt_le_m(self@.x, max as int, n as int, n as int);
                lemma_mdt_le_m(self@.y, max as int, n as int, n as int);
                lemma_mdt_le_m(self@.z, max as int, n as int, n as int);
            }
            self.scaled(max, n)
        }
    }
}

} // verus!
