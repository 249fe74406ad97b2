//! Fixed-point scalars.
//!
//! A quantity `q` (a length in arena units, an angle in radians, a time in
//! seconds) is held as the integer `q * ONE`, truncated. `PI` is an even
//! number on purpose: the quarter- and half-circle angles `HALF_PI` and
//! `PI` then divide exactly, which makes rotation by a right angle and the
//! cardinal surface normals exact.

use vstd::prelude::*;

verus! {

/// The fixed-point scale: one arena unit, one radian, one second.
pub const ONE: i64 = 1024;

/// Pi in fixed-point radians (rounded to the nearest even integer).
pub const PI: i64 = 3216;

/// Pi/2 in fixed-point radians.
pub const HALF_PI: i64 = 1608;

/// 2*Pi in fixed-point radians: a full turn.
pub const TWO_PI: i64 = 6432;

/// Inputs to the scalar helpers are kept well inside `i64`, so that sums,
/// differences and scale products cannot overflow.
pub open spec fn small(n: int) -> bool {
    -0x4000_0000_0000_0000 <= n <= 0x4000_0000_0000_0000
}

/// Largest magnitude a coordinate may have: one million arena units.
/// Every product of two coordinates then fits comfortably in `i64`.
pub const COORD_MAX: i64 = 0x4000_0000;

/// A coordinate within the supported arena range.
pub open spec fn coord(n: int) -> bool {
    -COORD_MAX <= n <= COORD_MAX
}

/// Largest magnitude of an arena coordinate: shape centres, extents and
/// poses stay within this.
pub const ARENA_MAX: i64 = 0x400_0000;

/// An arena coordinate.
pub open spec fn in_arena(n: int) -> bool {
    -ARENA_MAX <= n <= ARENA_MAX
}

/// Largest magnitude of a probe point: ray marches may step somewhat past
/// the arena before they give up.
pub const PROBE_MAX: i64 = 0x800_0000;

/// Largest magnitude of a point that a containment test accepts: probe
/// points and interpolated trajectory samples stay well inside it.
pub const TEST_MAX: i64 = 0x2000_0000;

/// Largest magnitude of an accumulated rotation angle.
pub const ROT_MAX: i64 = 0x4000_0000;

/// Floor division by a positive divisor, i.e. the mathematical `n / d`
/// (Euclidean, matching the spec-level `/` of Verus).
pub fn div_floor(n: i64, d: i64) -> (r: i64)
    requires
        0 < d <= 0x4000_0000_0000_0000,
        small(n as int),
    ensures
        r == n as int / d as int,
{
    if n >= 0 {
        n / d
    } else {
        let q = (-n + (d - 1)) / d;
        proof {
            lemma_neg_ceil_is_floor(n as int, d as int);
        }
        -q
    }
}

/// For `n < 0 < d`: `-((-n + d - 1) / d) == n / d` in Euclidean arithmetic.
proof fn lemma_neg_ceil_is_floor(n: int, d: int)
    requires
        n < 0,
        d > 0,
    ensures
        -((-n + d - 1) / d) == n / d,
{
    let q = n / d;
    let r = n % d;
    vstd::arithmetic::div_mod::lemma_fundamental_div_mod(n, d);
    vstd::arithmetic::div_mod::lemma_mod_bound(n, d);
    assert(n == d * q + r);
    let m = -n + d - 1;
    if r == 0 {
        assert(m == d * (-q) + (d - 1)) by {
            assert(d * (-q) == -(d * q)) by (nonlinear_arith);
        }
        vstd::arithmetic::div_mod::lemma_fundamental_div_mod_converse(m, d, -q, d - 1);
    } else {
        assert(m == d * (-q - 1) + (d - 1 - r) + d) by {
            assert(d * (-q - 1) == -(d * q) - d) by (nonlinear_arith);
        }
        assert(m == d * (-q) + (d - 1 - r)) by {
            assert(d * (-q) == -(d * q)) by (nonlinear_arith);
        }
        vstd::arithmetic::div_mod::lemma_fundamental_div_mod_converse(m, d, -q, d - 1 - r);
    }
}

/// Absolute value; the caller keeps the input away from `i64::MIN`.
pub fn abs_fx(n: i64) -> (r: i64)
    requires
        n != i64::MIN,
    ensures
        r == abs_spec(n as int),
{
    if n < 0 {
        -n
    } else {
        n
    }
}

pub open spec fn abs_spec(n: int) -> int {
    if n < 0 {
        -n
    } else {
        n
    }
}

/// If `num <= k * den`, the quotient `num / den` is at most `k`.
pub proof fn lemma_div_le(num: int, den: int, k: int)
    requires
        den > 0,
        num >= 0,
        k >= 0,
        num <= k * den,
    ensures
        num / den <= k,
{
    vstd::arithmetic::div_mod::lemma_div_is_ordered(num, k * den, den);
    vstd::arithmetic::div_mod::lemma_div_by_multiple(k, den);
}

/// If `num >= k * den`, the quotient `num / den` is at least `k`.
pub proof fn lemma_div_ge(num: int, den: int, k: int)
    requires
        den > 0,
        k >= 0,
        num >= k * den,
    ensures
        num / den >= k,
{
    vstd::arithmetic::div_mod::lemma_div_is_ordered(k * den, num, den);
    vstd::arithmetic::div_mod::lemma_div_by_multiple(k, den);
}

/// Division of a non-negative number by a positive one is non-negative.
pub proof fn lemma_div_nonneg(num: int, den: int)
    requires
        den > 0,
        num >= 0,
    ensures
        num / den >= 0,
{
    vstd::arithmetic::div_mod::lemma_div_pos_is_pos(num, den);
}

/// A quotient with numerator between `-b * d` and `b * d` lies between
/// `-b` and `b`.
pub proof fn lemma_div_in_range(n: int, d: int, b: int)
    requires
        d > 0,
        b >= 0,
        -(b * d) <= n <= b * d,
    ensures
        -b <= n / d <= b,
{
    vstd::arithmetic::div_mod::lemma_div_is_ordered(-(b * d), n, d);
    vstd::arithmetic::div_mod::lemma_div_is_ordered(n, b * d, d);
    vstd::arithmetic::div_mod::lemma_div_multiples_vanish(b, d);
    vstd::arithmetic::div_mod::lemma_div_multiples_vanish(-b, d);
    assert(d * b == b * d) by (nonlinear_arith);
    assert(d * -b == -(b * d)) by (nonlinear_arith);
}

/// The integer square root, as a mathematical function: the greatest `r`
/// with `r * r <= n` (zero for non-positive `n`).
pub open spec fn sqrt_spec(n: int) -> int
    decreases n,
{
    if n <= 0 {
        0
    } else {
        let s = sqrt_spec(n - 1);
        if (s + 1) * (s + 1) <= n {
            s + 1
        } else {
            s
        }
    }
}

/// The square-root function sits between the squares around it.
pub proof fn lemma_sqrt_spec_bounds(n: int)
    requires
        n >= 0,
    ensures
        sqrt_spec(n) >= 0,
        sqrt_spec(n) * sqrt_spec(n) <= n,
        (sqrt_spec(n) + 1) * (sqrt_spec(n) + 1) > n,
    decreases n,
{
    if n == 0 {
    } else {
        lemma_sqrt_spec_bounds(n - 1);
        let s = sqrt_spec(n - 1);
        if (s + 1) * (s + 1) <= n {
            assert((s + 2) * (s + 2) > n) by (nonlinear_arith)
                requires
                    s >= 0,
                    (s + 1) * (s + 1) >= n,
            ;
        }
    }
}

/// Any value between the squares around it is the square root.
pub proof fn lemma_sqrt_spec_unique(n: int, r: int)
    requires
        n >= 0,
        r >= 0,
        r * r <= n,
        (r + 1) * (r + 1) > n,
    ensures
        r == sqrt_spec(n),
{
    lemma_sqrt_spec_bounds(n);
    let s = sqrt_spec(n);
    if r < s {
        assert((r + 1) * (r + 1) <= s * s) by (nonlinear_arith)
            requires
                0 <= r,
                r + 1 <= s,
        ;
    }
    if r > s {
        assert((s + 1) * (s + 1) <= r * r) by (nonlinear_arith)
            requires
                0 <= s,
                s + 1 <= r,
        ;
    }
}

/// Integer square root: the greatest `r` with `r * r <= n`.
pub fn isqrt(n: i64) -> (r: i64)
    requires
        n >= 0,
    ensures
        r >= 0,
        r * r <= n,
        (r + 1) * (r + 1) > n,
        r == sqrt_spec(n as int),
{
    let mut lo: i64 = 0;
    let mut hi: i64 = 0x1_0000_0000;
    // Invariant: lo * lo <= n < hi * hi.
    proof {
        assert(0x1_0000_0000i64 * 0x1_0000_0000i64 > n) by (nonlinear_arith)
            requires
                n < 0x1_0000_0000_0000_0000,
        ;
    }
    while lo + 1 < hi
        invariant
            0 <= lo < hi <= 0x1_0000_0000,
            lo * lo <= n,
            hi * hi > n,
        decreases hi - lo,
    {
        let mid = lo + (hi - lo) / 2;
        assert(lo < mid < hi);
        if mid <= n / mid {
            proof {
                assert(mid * mid <= n) by (nonlinear_arith)
                    requires
                        0 < mid,
                        n >= 0,
                        mid <= n / mid,
                        n / mid == n as int / mid as int,
                ;
            }
            lo = mid;
        } else {
            proof {
                assert(mid * mid > n) by (nonlinear_arith)
                    requires
                        0 < mid,
                        n >= 0,
                        mid > n / mid,
                        n / mid == n as int / mid as int,
                ;
            }
            hi = mid;
        }
    }
    proof {
        lemma_sqrt_spec_unique(n as int, lo as int);
    }
    lo
}

} // verus!
