//! Fixed-point trigonometry.
//!
//! Sine is the classical rational approximation
//! `sin x ~ 16 x (pi - x) / (5 pi^2 - 4 x (pi - x))` on `[0, pi]`, mirrored
//! to the full turn; it is exact at `0`, `pi/2` and `pi` because `PI` is
//! even. The polar angle comes from an octant-folded rational approximation
//! of the arctangent. All results are fixed-point radians; the functions
//! below are the one definition of direction and angle that the whole crate
//! uses, so geometry that combines them is exact about *these* functions
//! rather than about real-number trigonometry.

use vstd::prelude::*;
use crate::fx::{ONE, PI, HALF_PI, TWO_PI, small, coord, div_floor, lemma_div_le, lemma_div_ge,
    lemma_div_nonneg};

verus! {

/// The sine approximation on the half turn `[0, PI]`, scaled by `ONE`.
pub open spec fn sin_half_spec(x: int) -> int {
    (16 * x * (PI - x) * ONE) / (5 * (PI as int) * (PI as int) - 4 * x * (PI - x))
}

/// Sine over one full turn `[0, TWO_PI)`.
pub open spec fn sin_turn_spec(x: int) -> int {
    if x <= PI {
        sin_half_spec(x)
    } else {
        -sin_half_spec(x - PI)
    }
}

/// An angle folded into `[0, TWO_PI)`.
pub open spec fn reduce_spec(a: int) -> int {
    a % (TWO_PI as int)
}

/// Sine of an arbitrary fixed-point angle.
pub open spec fn sin_spec(a: int) -> int {
    sin_turn_spec(reduce_spec(a))
}

/// Cosine of an arbitrary fixed-point angle: sine a quarter turn later.
pub open spec fn cos_spec(a: int) -> int {
    sin_turn_spec(reduce_spec(a + HALF_PI))
}

/// Folds an angle into `[0, TWO_PI)`.
pub fn reduce(a: i64) -> (r: i64)
    requires
        small(a as int),
    ensures
        r == reduce_spec(a as int),
        0 <= r < TWO_PI,
{
    let q = div_floor(a, TWO_PI);
    proof {
        vstd::arithmetic::div_mod::lemma_fundamental_div_mod(a as int, TWO_PI as int);
        vstd::arithmetic::div_mod::lemma_mod_bound(a as int, TWO_PI as int);
    }
    a - q * TWO_PI
}

/// Sine on the half turn.
pub fn sin_half(x: i64) -> (r: i64)
    requires
        0 <= x <= PI,
    ensures
        r == sin_half_spec(x as int),
        0 <= r <= ONE,
{
    proof {
        assert(0 <= x * (PI - x) && 4 * (x * (PI - x)) <= PI * PI) by (nonlinear_arith)
            requires
                0 <= x <= PI,
        ;
    }
    let p = x * (PI - x);
    let num = 16 * p * ONE;
    let den = 5 * (PI * PI) - 4 * p;
    let r = num / den;
    proof {
        assert(num == 16 * (x as int) * (PI - x as int) * ONE) by (nonlinear_arith)
            requires
                p == x * (PI - x),
                num == 16 * p * ONE,
        ;
        assert(den == 5 * (PI as int) * (PI as int) - 4 * (x as int) * (PI - x as int))
            by (nonlinear_arith)
            requires
                p == x * (PI - x),
                den == 5 * (PI * PI) - 4 * p,
        ;
        lemma_div_nonneg(num as int, den as int);
        lemma_div_le(num as int, den as int, ONE as int);
    }
    r
}

/// Sine over one full turn.
pub fn sin_turn(x: i64) -> (r: i64)
    requires
        0 <= x < TWO_PI,
    ensures
        r == sin_turn_spec(x as int),
        -ONE <= r <= ONE,
{
    if x <= PI {
        sin_half(x)
    } else {
        -sin_half(x - PI)
    }
}

/// Sine of an arbitrary fixed-point angle.
pub fn sin_fx(a: i64) -> (r: i64)
    requires
        small(a as int),
    ensures
        r == sin_spec(a as int),
        -ONE <= r <= ONE,
{
    let x = reduce(a);
    sin_turn(x)
}

/// Cosine of an arbitrary fixed-point angle.
pub fn cos_fx(a: i64) -> (r: i64)
    requires
        small(a as int),
    ensures
        r == cos_spec(a as int),
        -ONE <= r <= ONE,
{
    let x = reduce(a);
    let shifted = if x + HALF_PI >= TWO_PI {
        x + HALF_PI - TWO_PI
    } else {
        x + HALF_PI
    };
    proof {
        lemma_shift_quarter(a as int, x as int, shifted as int);
    }
    sin_turn(shifted)
}

/// Shifting a reduced angle by a quarter turn and re-folding it agrees with
/// reducing the shifted angle.
proof fn lemma_shift_quarter(a: int, x: int, shifted: int)
    requires
        x == reduce_spec(a),
        0 <= x < TWO_PI,
        shifted == if x + HALF_PI >= TWO_PI {
            x + HALF_PI - TWO_PI
        } else {
            x + HALF_PI
        },
    ensures
        shifted == reduce_spec(a + HALF_PI),
        0 <= shifted < TWO_PI,
{
    let m = TWO_PI as int;
    vstd::arithmetic::div_mod::lemma_fundamental_div_mod(a, m);
    let q = a / m;
    assert(a + HALF_PI == m * q + (x + HALF_PI));
    vstd::arithmetic::div_mod::lemma_mod_multiples_vanish(q, x + HALF_PI, m);
    assert((a + HALF_PI) % m == (x + HALF_PI) % m);
    if x + HALF_PI >= m {
        vstd::arithmetic::div_mod::lemma_mod_sub_multiples_vanish(x + HALF_PI, m);
        vstd::arithmetic::div_mod::lemma_small_mod((x + HALF_PI - m) as nat, m as nat);
    } else {
        vstd::arithmetic::div_mod::lemma_small_mod((x + HALF_PI) as nat, m as nat);
    }
}

/// On the middle half of the half turn the sine stays above `700/1024`.
proof fn lemma_sin_half_mid(x: int)
    requires
        804 <= x <= 2412,
    ensures
        sin_half_spec(x) >= 700,
{
    let p = x * (PI - x);
    assert(p >= 1939248) by (nonlinear_arith)
        requires
            804 <= x <= 2412,
            p == x * (PI - x),
    ;
    assert(4 * p <= PI * PI) by (nonlinear_arith)
        requires
            0 <= x <= PI,
            p == x * (PI - x),
    ;
    let num = 16 * p * ONE;
    let den = 5 * (PI as int) * (PI as int) - 4 * p;
    assert(num == 16 * x * (PI - x) * ONE) by (nonlinear_arith)
        requires
            p == x * (PI - x),
            num == 16 * p * ONE,
    ;
    assert(den == 5 * (PI as int) * (PI as int) - 4 * x * (PI - x)) by (nonlinear_arith)
        requires
            p == x * (PI - x),
            den == 5 * (PI as int) * (PI as int) - 4 * p,
    ;
    assert(num >= 700 * den) by (nonlinear_arith)
        requires
            p >= 1939248,
            num == 16 * p * ONE,
            den == 5 * (PI as int) * (PI as int) - 4 * p,
    ;
    lemma_div_ge(num, den, 700);
    assert(sin_half_spec(x) == num / den);
}

/// The sine approximation never leaves `[-ONE, ONE]`.
pub proof fn lemma_sin_half_bounds(x: int)
    requires
        0 <= x <= PI,
    ensures
        0 <= sin_half_spec(x) <= ONE,
{
    let p = x * (PI - x);
    assert(0 <= p && 4 * p <= PI * PI) by (nonlinear_arith)
        requires
            0 <= x <= PI,
            p == x * (PI - x),
    ;
    let num = 16 * p * ONE;
    let den = 5 * (PI as int) * (PI as int) - 4 * p;
    assert(num == 16 * x * (PI - x) * ONE) by (nonlinear_arith)
        requires
            p == x * (PI - x),
            num == 16 * p * ONE,
    ;
    assert(den == 5 * (PI as int) * (PI as int) - 4 * x * (PI - x)) by (nonlinear_arith)
        requires
            p == x * (PI - x),
            den == 5 * (PI as int) * (PI as int) - 4 * p,
    ;
    lemma_div_nonneg(num, den);
    lemma_div_le(num, den, ONE as int);
    assert(sin_half_spec(x) == num / den);
}

/// At every angle the direction vector `(cos, sin)` has squared length at
/// least `700 * 700`: the approximation never collapses toward the origin.
pub proof fn lemma_unit_lower(a: int)
    ensures
        sin_spec(a) * sin_spec(a) + cos_spec(a) * cos_spec(a) >= 490000,
{
    let m = TWO_PI as int;
    let x = reduce_spec(a);
    vstd::arithmetic::div_mod::lemma_mod_bound(a, m);
    let shifted = if x + HALF_PI >= m {
        x + HALF_PI - m
    } else {
        x + HALF_PI
    };
    lemma_shift_quarter(a, x, shifted);
    let s = sin_turn_spec(x);
    let c = sin_turn_spec(shifted);
    if 804 <= x <= 2412 {
        lemma_sin_half_mid(x);
        assert(s * s >= 490000) by (nonlinear_arith)
            requires
                s >= 700,
        ;
    } else if 4020 <= x <= 5628 {
        lemma_sin_half_mid(x - PI);
        assert(s * s >= 490000) by (nonlinear_arith)
            requires
                s <= -700,
        ;
    } else if x < 804 || x > 5628 {
        // The shifted angle lands in [804, 2412].
        lemma_sin_half_mid(shifted);
        assert(c * c >= 490000) by (nonlinear_arith)
            requires
                c >= 700,
        ;
    } else {
        // 2412 < x < 4020: the shifted angle lands in the mirrored half.
        lemma_sin_half_mid(shifted - PI);
        assert(c * c >= 490000) by (nonlinear_arith)
            requires
                c <= -700,
        ;
    }
    assert(s * s >= 0) by (nonlinear_arith);
    assert(c * c >= 0) by (nonlinear_arith);
}

/// The sine and cosine of any angle stay within `[-ONE, ONE]`.
pub proof fn lemma_sin_cos_bounds(a: int)
    ensures
        -ONE <= sin_spec(a) <= ONE,
        -ONE <= cos_spec(a) <= ONE,
{
    let m = TWO_PI as int;
    vstd::arithmetic::div_mod::lemma_mod_bound(a, m);
    vstd::arithmetic::div_mod::lemma_mod_bound(a + HALF_PI, m);
    let x = reduce_spec(a);
    if x <= PI {
        lemma_sin_half_bounds(x);
    } else {
        lemma_sin_half_bounds(x - PI);
    }
    let x2 = reduce_spec(a + HALF_PI);
    if x2 <= PI {
        lemma_sin_half_bounds(x2);
    } else {
        lemma_sin_half_bounds(x2 - PI);
    }
}

/// The sine of the zero angle is exactly zero.
pub proof fn lemma_sin_zero()
    ensures
        sin_spec(0) == 0,
{
    vstd::arithmetic::div_mod::lemma_small_mod(0nat, TWO_PI as nat);
    vstd::arithmetic::div_mod::lemma_div_of0(5 * (PI as int) * (PI as int));
}

/// The cosine of the zero angle is exactly `ONE`.
pub proof fn lemma_cos_zero()
    ensures
        cos_spec(0) == ONE,
{
    vstd::arithmetic::div_mod::lemma_small_mod(HALF_PI as nat, TWO_PI as nat);
    assert(reduce_spec(0 + HALF_PI) == HALF_PI);
    // sin_half_spec(HALF_PI) divides 16 * 1608 * 1608 * 1024 by
    // 5 * 3216 * 3216 - 4 * 1608 * 1608, which is exactly 1024.
    vstd::arithmetic::div_mod::lemma_fundamental_div_mod_converse(
        16 * (HALF_PI as int) * (PI - HALF_PI as int) * (ONE as int),
        5 * (PI as int) * (PI as int) - 4 * (HALF_PI as int) * (PI - HALF_PI as int),
        ONE as int,
        0,
    );
}

/// The arctangent approximation on `[0, ONE]`, scaled by `ONE`; `804` is a
/// quarter of `PI`.
pub open spec fn atan_frac_spec(z: int) -> int {
    (z * (804 + (280 * (ONE - z)) / (ONE as int))) / (ONE as int)
}

/// Arctangent of `z / ONE` for `z` in `[0, ONE]`.
pub fn atan_frac(z: i64) -> (r: i64)
    requires
        0 <= z <= ONE,
    ensures
        r == atan_frac_spec(z as int),
        0 <= r <= 804,
{
    let t = (280 * (ONE - z)) / ONE;
    proof {
        lemma_div_nonneg(280 * ((ONE - z) as int), ONE as int);
        lemma_div_le(280 * ((ONE - z) as int), ONE as int, 280);
        assert(0 <= z * (804 + t) <= 1024 * 1084) by (nonlinear_arith)
            requires
                0 <= z <= ONE,
                0 <= t <= 280,
        ;
    }
    let prod = z * (804 + t);
    proof {
        vstd::arithmetic::div_mod::lemma_fundamental_div_mod(
            280 * ((ONE - z) as int),
            ONE as int,
        );
        vstd::arithmetic::div_mod::lemma_mod_bound(280 * ((ONE - z) as int), ONE as int);
        assert(ONE as int * t <= 280 * ((ONE - z) as int));
        assert(prod <= 804 * ONE) by (nonlinear_arith)
            requires
                0 <= z <= ONE,
                0 <= t <= 280,
                ONE as int * t <= 280 * ((ONE - z) as int),
                prod == z * (804 + t),
        ;
        assert(prod >= 0) by (nonlinear_arith)
            requires
                0 <= z,
                0 <= t,
                prod == z * (804 + t),
        ;
        lemma_div_nonneg(prod as int, ONE as int);
        lemma_div_le(prod as int, ONE as int, 804);
    }
    prod / ONE
}

/// The polar angle of the point `(x, y)`, in `[-PI, PI]`.
pub open spec fn atan2_spec(y: int, x: int) -> int {
    let ay = if y < 0 {
        -y
    } else {
        y
    };
    let ax = if x < 0 {
        -x
    } else {
        x
    };
    if x > 0 && ay <= x {
        if y >= 0 {
            atan_frac_spec(ay * ONE / (x as int))
        } else {
            -atan_frac_spec(ay * ONE / (x as int))
        }
    } else if y > 0 && ax <= y {
        HALF_PI - (if x >= 0 {
            atan_frac_spec(ax * ONE / (y as int))
        } else {
            -atan_frac_spec(ax * ONE / (y as int))
        })
    } else if y < 0 && ax <= ay {
        -HALF_PI + (if x >= 0 {
            atan_frac_spec(ax * ONE / ay)
        } else {
            -atan_frac_spec(ax * ONE / ay)
        })
    } else if x < 0 && y >= 0 {
        PI - atan_frac_spec(ay * ONE / ax)
    } else if x < 0 {
        -PI + atan_frac_spec(ay * ONE / ax)
    } else {
        0
    }
}

/// Polar angle of `(x, y)`: the fixed-point `atan2(y, x)`.
pub fn atan2_fx(y: i64, x: i64) -> (r: i64)
    requires
        coord(y as int),
        coord(x as int),
    ensures
        r == atan2_spec(y as int, x as int),
        -PI <= r <= PI,
{
    let ay = if y < 0 {
        -y
    } else {
        y
    };
    let ax = if x < 0 {
        -x
    } else {
        x
    };
    if x > 0 && ay <= x {
        let z = (ay * ONE) / x;
        proof {
            lemma_div_nonneg(ay as int * ONE, x as int);
            lemma_div_le(ay as int * ONE, x as int, ONE as int);
            assert(ay as int * ONE <= ONE * (x as int)) by (nonlinear_arith)
                requires
                    0 <= ay <= x,
            ;
        }
        let f = atan_frac(z);
        if y >= 0 {
            f
        } else {
            -f
        }
    } else if y > 0 && ax <= y {
        let z = (ax * ONE) / y;
        proof {
            lemma_div_nonneg(ax as int * ONE, y as int);
            lemma_div_le(ax as int * ONE, y as int, ONE as int);
            assert(ax as int * ONE <= ONE * (y as int)) by (nonlinear_arith)
                requires
                    0 <= ax <= y,
            ;
        }
        let f = atan_frac(z);
        if x >= 0 {
            HALF_PI - f
        } else {
            HALF_PI + f
        }
    } else if y < 0 && ax <= ay {
        let z = (ax * ONE) / ay;
        proof {
            lemma_div_nonneg(ax as int * ONE, ay as int);
            lemma_div_le(ax as int * ONE, ay as int, ONE as int);
            assert(ax as int * ONE <= ONE * (ay as int)) by (nonlinear_arith)
                requires
                    0 <= ax <= ay,
            ;
        }
        let f = atan_frac(z);
        if x >= 0 {
            -HALF_PI + f
        } else {
            -HALF_PI - f
        }
    } else if x < 0 && y >= 0 {
        let z = (ay * ONE) / ax;
        proof {
            lemma_div_nonneg(ay as int * ONE, ax as int);
            lemma_div_le(ay as int * ONE, ax as int, ONE as int);
            assert(ay as int * ONE <= ONE * (ax as int)) by (nonlinear_arith)
                requires
                    0 <= ay <= ax,
            ;
        }
        let f = atan_frac(z);
        PI - f
    } else if x < 0 {
        let z = (ay * ONE) / ax;
        proof {
            lemma_div_nonneg(ay as int * ONE, ax as int);
            lemma_div_le(ay as int * ONE, ax as int, ONE as int);
            assert(ay as int * ONE <= ONE * (ax as int)) by (nonlinear_arith)
                requires
                    0 <= ay <= ax,
            ;
        }
        let f = atan_frac(z);
        -PI + f
    } else {
        0
    }
}

} // verus!
