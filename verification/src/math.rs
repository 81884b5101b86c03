//! Exact integer arithmetic used by the steering behaviors: truncating
//! scaled multiply-divide and integer square roots, with the spec-level
//! functions that the behavior contracts are written over.

use vstd::arithmetic::div_mod::{
    lemma_div_is_ordered, lemma_div_multiples_vanish, lemma_div_pos_is_pos,
};
use vstd::arithmetic::mul::lemma_mul_inequality;
use vstd::prelude::*;

verus! {

/// Number of raw units in one world unit: all positions, velocities,
/// forces and times are fixed-point values in thousandths.
pub const SCALE: i64 = 1000;

/// `r` is the integer square root (rounded down) of `n`.
pub open spec fn is_sqrt_floor(n: int, r: int) -> bool {
    0 <= r && r * r <= n && n < (r + 1) * (r + 1)
}

/// The integer square root of `n`, rounded down. Well defined for `n >= 0`
/// (the witness is unique; see `lemma_sqrt_floor_is`).
pub open spec fn sqrt_floor(n: int) -> int {
    choose|r: int| is_sqrt_floor(n, r)
}

/// The integer square root of `n`, rounded up: the least `r` with `r * r >= n`.
pub open spec fn sqrt_ceil(n: int) -> int {
    if sqrt_floor(n) * sqrt_floor(n) == n {
        sqrt_floor(n)
    } else {
        sqrt_floor(n) + 1
    }
}

/// `a * m / n` with the quotient truncated toward zero, as Rust's integer
/// division does; `m` and `n` are expected to be nonnegative and positive.
pub open spec fn mdt(a: int, m: int, n: int) -> int {
    if a >= 0 {
        a * m / n
    } else {
        -((-a) * m / n)
    }
}

/// The absolute value of an integer.
pub open spec fn abs1(a: int) -> int {
    if a >= 0 {
        a
    } else {
        -a
    }
}

/// No two integers are the square root (rounded down) of the same number.
proof fn lemma_sqrt_floor_unique(n: int, r1: int, r2: int)
    by (nonlinear_arith)
    requires
        is_sqrt_floor(n, r1),
        is_sqrt_floor(n, r2),
    ensures
        r1 == r2,
{
}

/// A witness for `is_sqrt_floor` pins down the value of `sqrt_floor`.
pub proof fn lemma_sqrt_floor_is(n: int, r: int)
    requires
        is_sqrt_floor(n, r),
    ensures
        sqrt_floor(n) == r,
        is_sqrt_floor(n, sqrt_floor(n)),
{
    assert(is_sqrt_floor(n, sqrt_floor(n))) by {
        assert(exists|q: int| is_sqrt_floor(n, q));
    }
    lemma_sqrt_floor_unique(n, sqrt_floor(n), r);
}

/// Every nonnegative integer has an integer square root.
pub proof fn lemma_sqrt_floor_exists(n: int)
    requires
        0 <= n,
    ensures
        is_sqrt_floor(n, sqrt_floor(n)),
    decreases n,
{
    if n == 0 {
        assert(is_sqrt_floor(0, 0));
        lemma_sqrt_floor_is(0, 0);
    } else {
        lemma_sqrt_floor_exists(n - 1);
        let p: int = sqrt_floor(n - 1);
        if (p + 1) * (p + 1) <= n {
            assert(is_sqrt_floor(n, p + 1)) by (nonlinear_arith)
                requires
                    is_sqrt_floor(n - 1, p),
                    (p + 1) * (p + 1) <= n;
            lemma_sqrt_floor_is(n, p + 1);
        } else {
            assert(is_sqrt_floor(n, p));
            lemma_sqrt_floor_is(n, p);
        }
    }
}

/// The square root (rounded down) of a perfect square `a * a` is `a` itself.
pub proof fn lemma_sqrt_floor_square(a: int)
    requires
        0 <= a,
    ensures
        sqrt_floor(a * a) == a,
{
    assert(is_sqrt_floor(a * a, a)) by (nonlinear_arith)
        requires
            0 <= a;
    lemma_sqrt_floor_is(a * a, a);
}

/// The square root rounded down never exceeds the one rounded up, and the
/// rounded-up root squares to at least `n`.
pub proof fn lemma_sqrt_ceil_bounds(n: int, r: int)
    requires
        is_sqrt_floor(n, r),
    ensures
        sqrt_ceil(n) == (if r * r == n { r } else { r + 1 }),
        sqrt_ceil(n) * sqrt_ceil(n) >= n,
        r <= sqrt_ceil(n),
{
    lemma_sqrt_floor_is(n, r);
}

/// Integer square root, rounded down.
pub fn isqrt_u128(n: u128) -> (r: u128)
    ensures
        is_sqrt_floor(n as int, r as int),
        r < 0x1_0000_0000_0000_0000,
{
    let mut lo: u128 = 0;
    let mut hi: u128 = 0x1_0000_0000_0000_0000;
    proof {
        assert((0x1_0000_0000_0000_0000 as int) * (0x1_0000_0000_0000_0000 as int)
            > u128::MAX as int);
    }
    while hi - lo > 1
        invariant
            lo < hi <= 0x1_0000_0000_0000_0000,
            (lo as int) * (lo as int) <= n as int,
            (n as int) < (hi as int) * (hi as int),
        decreases hi - lo,
    {
        let mid: u128 = lo + (hi - lo) / 2;
        proof {
            assert(lo < mid < hi);
            assert((mid as int) * (mid as int) <= u128::MAX as int) by (nonlinear_arith)
                requires
                    0 <= mid as int <= 0xFFFF_FFFF_FFFF_FFFF;
        }
        if mid * mid <= n {
            lo = mid;
        } else {
            hi = mid;
        }
    }
    lo
}

/// `a * m / n`, truncated toward zero, without intermediate overflow.
pub fn mul_div(a: i64, m: i64, n: i64) -> (r: i64)
    requires
        0 <= m,
        1 <= n,
        -(i64::MAX as int) <= mdt(a as int, m as int, n as int) <= i64::MAX as int,
    ensures
        r as int == mdt(a as int, m as int, n as int),
{
    let wide: i128 = a as i128;
    let mag: u128 = if a < 0 {
        (-wide) as u128
    } else {
        wide as u128
    };
    proof {
        assert(mag as int == if a < 0 { -(a as int) } else { a as int });
        assert((mag as int) * (m as int) <= u128::MAX as int) by (nonlinear_arith)
            requires
                0 <= mag as int <= 0x8000_0000_0000_0000,
                0 <= m && (m as int) < 0x8000_0000_0000_0000;
    }
    let q: u128 = (mag * (m as u128)) / (n as u128);
    proof {
        if a >= 0 {
            assert(q as int == mdt(a as int, m as int, n as int));
        } else {
            assert(q as int == (-(a as int)) * (m as int) / (n as int));
        }
        assert(q <= i64::MAX as u128);
    }
    if a < 0 {
        -(q as i64)
    } else {
        q as i64
    }
}

/// Scaling down (`m <= n`) keeps the magnitude of `a * m / n` within that of `a`.
pub proof fn lemma_mdt_scale_down(a: int, m: int, n: int, bound: int)
    requires
        1 <= n,
        0 <= m <= n,
        -bound <= a <= bound,
        0 <= bound,
    ensures
        -bound <= mdt(a, m, n) <= bound,
{
    let p: int = if a >= 0 { a } else { -a };
    lemma_mul_inequality(m, n, p);
    assert(m * p == p * m && n * p == p * n) by (nonlinear_arith);
    lemma_div_is_ordered(p * m, p * n, n);
    lemma_div_multiples_vanish(p, n);
    lemma_div_pos_is_pos(p * m, n);
    assert(0 <= p * m) by (nonlinear_arith)
        requires
            0 <= p,
            0 <= m;
}

/// When the magnitude of `a` is at most `n`, that of `a * m / n` is at most `m`.
pub proof fn lemma_mdt_le_m(a: int, m: int, n: int, bound: int)
    requires
        1 <= n,
        0 <= m,
        -bound <= a <= bound,
        bound <= n,
    ensures
        -m <= mdt(a, m, n) <= m,
{
    let p: int = if a >= 0 { a } else { -a };
    lemma_mul_inequality(p, n, m);
    lemma_div_is_ordered(p * m, n * m, n);
    assert(n * m / n == m) by {
        lemma_div_multiples_vanish(m, n);
    }
    lemma_div_pos_is_pos(p * m, n);
    assert(0 <= p * m) by (nonlinear_arith)
        requires
            0 <= p,
            0 <= m;
}

/// The magnitude of `a * m / n` is at most that of `abound * m / n`.
pub proof fn lemma_mdt_bound(a: int, m: int, n: int, abound: int)
    requires
        1 <= n,
        0 <= m,
        -abound <= a <= abound,
        0 <= abound,
    ensures
        -(abound * m / n) <= mdt(a, m, n) <= abound * m / n,
{
    let p: int = if a >= 0 { a } else { -a };
    lemma_mul_inequality(p, abound, m);
    lemma_div_is_ordered(p * m, abound * m, n);
    lemma_div_pos_is_pos(p * m, n);
    assert(0 <= p * m) by (nonlinear_arith)
        requires
            0 <= p,
            0 <= m;
}

/// A coarse bound: the magnitude of `a * m / n` is at most `abound * m`.
pub proof fn lemma_mdt_coarse(a: int, m: int, n: int, abound: int)
    requires
        1 <= n,
        0 <= m,
        -abound <= a <= abound,
        0 <= abound,
    ensures
        -(abound * m) <= mdt(a, m, n) <= abound * m,
{
    lemma_mdt_bound(a, m, n, abound);
    assert(0 <= abound * m) by (nonlinear_arith)
        requires
            0 <= abound,
            0 <= m;
    vstd::arithmetic::div_mod::lemma_div_nonincreasing(abound * m, n);
}

/// Truncation commutes with the absolute value: `|a * m / n| == |a| * m / n`.
pub proof fn lemma_mdt_abs(a: int, m: int, n: int)
    requires
        1 <= n,
        0 <= m,
    ensures
        abs1(mdt(a, m, n)) == abs1(a) * m / n,
        0 <= abs1(a) * m / n,
{
    lemma_div_pos_is_pos(abs1(a) * m, n);
    assert(0 <= abs1(a) * m) by (nonlinear_arith)
        requires
            0 <= abs1(a),
            0 <= m;
}

/// Multiplying a quotient back by the divisor stays below the dividend.
pub proof fn lemma_div_mul_le(x: int, n: int)
    requires
        0 <= x,
        1 <= n,
    ensures
        (x / n) * n <= x,
{
    vstd::arithmetic::div_mod::lemma_fundamental_div_mod(x, n);
    vstd::arithmetic::div_mod::lemma_mod_bound(x, n);
    assert(n * (x / n) == (x / n) * n) by (nonlinear_arith);
}

/// Products of nonnegative numbers respect their bounds.
pub proof fn lemma_mul_le(a: int, abound: int, b: int, bbound: int)
    by (nonlinear_arith)
    requires
        0 <= a <= abound,
        0 <= b <= bbound,
    ensures
        a * b <= abound * bbound,
{
}

} // verus!
