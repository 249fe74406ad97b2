//! Two-dimensional fixed-point vectors: points, directions and velocities.

use vstd::prelude::*;
use crate::fx::{ONE, PI, COORD_MAX, small, div_floor, isqrt, lemma_div_in_range};
use crate::trig::{sin_spec, cos_spec, atan2_spec, sin_fx, cos_fx, atan2_fx};

verus! {

/// A point or direction; both components are fixed-point scalars.
#[derive(Clone, Copy, Debug, PartialEq, Eq, Structural)]
pub struct Vec2 {
    pub x: i64,
    pub y: i64,
}

/// Both components have magnitude at most `b`.
pub open spec fn bounded(v: Vec2, b: int) -> bool {
    -b <= v.x <= b && -b <= v.y <= b
}

/// `r` is the integer square root of `n`.
pub open spec fn is_sqrt(n: int, r: int) -> bool {
    r >= 0 && r * r <= n < (r + 1) * (r + 1)
}

/// The first component of `(x, y)` rotated by the unit direction `(rx, ry)`.
pub open spec fn rot_x(x: int, y: int, rx: int, ry: int) -> int {
    (x * rx - y * ry) / (ONE as int)
}

/// The second component of `(x, y)` rotated by the unit direction `(rx, ry)`.
pub open spec fn rot_y(x: int, y: int, rx: int, ry: int) -> int {
    (x * ry + y * rx) / (ONE as int)
}

impl Vec2 {
    pub fn new(x: i64, y: i64) -> (r: Vec2)
        ensures
            r.x == x,
            r.y == y,
    {
        Vec2 { x, y }
    }

    pub fn x(&self) -> (r: i64)
        ensures
            r == self.x,
    {
        self.x
    }

    pub fn y(&self) -> (r: i64)
        ensures
            r == self.y,
    {
        self.y
    }

    /// The polar angle `atan2(y, x)` in fixed-point radians.
    pub fn angle(&self) -> (r: i64)
        requires
            bounded(*self, COORD_MAX as int),
        ensures
            r == atan2_spec(self.y as int, self.x as int),
            -PI <= r <= PI,
    {
        atan2_fx(self.y, self.x)
    }

    /// The unit direction at the given angle: `(cos a, sin a)`.
    pub fn from_angle(a: i64) -> (r: Vec2)
        requires
            small(a as int),
        ensures
            r.x == cos_spec(a as int),
            r.y == sin_spec(a as int),
            bounded(r, ONE as int),
    {
        Vec2 { x: cos_fx(a), y: sin_fx(a) }
    }

    pub fn add(self, other: Vec2) -> (r: Vec2)
        requires
            small(self.x + other.x),
            small(self.y + other.y),
        ensures
            r.x == self.x + other.x,
            r.y == self.y + other.y,
    {
        Vec2 { x: self.x + other.x, y: self.y + other.y }
    }

    pub fn sub(self, other: Vec2) -> (r: Vec2)
        requires
            small(self.x - other.x),
            small(self.y - other.y),
        ensures
            r.x == self.x - other.x,
            r.y == self.y - other.y,
    {
        Vec2 { x: self.x - other.x, y: self.y - other.y }
    }

    /// Componentwise product with a plain integer (a step count, a sign).
    pub fn scale(self, k: i64) -> (r: Vec2)
        requires
            small(self.x * k),
            small(self.y * k),
        ensures
            r.x == self.x * k,
            r.y == self.y * k,
    {
        Vec2 { x: self.x * k, y: self.y * k }
    }

    /// Componentwise product with a fixed-point scalar.
    pub fn mul_fx(self, k: i64) -> (r: Vec2)
        requires
            small(self.x * k),
            small(self.y * k),
        ensures
            r.x == self.x * k / (ONE as int),
            r.y == self.y * k / (ONE as int),
    {
        Vec2 { x: div_floor(self.x * k, ONE), y: div_floor(self.y * k, ONE) }
    }

    /// The squared length, in squared fixed-point units.
    pub fn sq_magnitude(&self) -> (r: i64)
        requires
            bounded(*self, COORD_MAX as int),
        ensures
            r == self.x * self.x + self.y * self.y,
    {
        proof {
            assert(0 <= self.x * self.x <= COORD_MAX * COORD_MAX) by (nonlinear_arith)
                requires
                    -COORD_MAX <= self.x <= COORD_MAX,
            ;
            assert(0 <= self.y * self.y <= COORD_MAX * COORD_MAX) by (nonlinear_arith)
                requires
                    -COORD_MAX <= self.y <= COORD_MAX,
            ;
        }
        self.x * self.x + self.y * self.y
    }

    /// The length, as a fixed-point scalar (the integer square root of the
    /// squared length).
    pub fn magnitude(&self) -> (r: i64)
        requires
            bounded(*self, COORD_MAX as int),
        ensures
            is_sqrt(self.x * self.x + self.y * self.y, r as int),
            r == crate::fx::sqrt_spec(self.x * self.x + self.y * self.y),
    {
        let sq = self.sq_magnitude();
        proof {
            assert(self.x * self.x >= 0) by (nonlinear_arith);
            assert(self.y * self.y >= 0) by (nonlinear_arith);
        }
        isqrt(sq)
    }

    /// The dot product, in squared fixed-point units.
    pub fn dot(&self, other: Vec2) -> (r: i64)
        requires
            bounded(*self, COORD_MAX as int),
            bounded(other, COORD_MAX as int),
        ensures
            r == self.x * other.x + self.y * other.y,
    {
        proof {
            assert(-(COORD_MAX * COORD_MAX) <= self.x * other.x <= COORD_MAX * COORD_MAX)
                by (nonlinear_arith)
                requires
                    -COORD_MAX <= self.x <= COORD_MAX,
                    -COORD_MAX <= other.x <= COORD_MAX,
            ;
            assert(-(COORD_MAX * COORD_MAX) <= self.y * other.y <= COORD_MAX * COORD_MAX)
                by (nonlinear_arith)
                requires
                    -COORD_MAX <= self.y <= COORD_MAX,
                    -COORD_MAX <= other.y <= COORD_MAX,
            ;
        }
        self.x * other.x + self.y * other.y
    }

    /// The sum of the components.
    pub fn sum(&self) -> (r: i64)
        requires
            small(self.x + self.y),
        ensures
            r == self.x + self.y,
    {
        self.x + self.y
    }

    /// Rotates the vector by a unit direction `(cos, sin)` pair.
    pub fn rotate(&mut self, rotation: Vec2)
        requires
            bounded(*old(self), COORD_MAX as int),
            bounded(rotation, ONE as int),
        ensures
            final(self).x == rot_x(old(self).x as int, old(self).y as int, rotation.x as int,
                rotation.y as int),
            final(self).y == rot_y(old(self).x as int, old(self).y as int, rotation.x as int,
                rotation.y as int),
            bounded(*final(self), 2 * COORD_MAX as int + 1),
    {
        proof {
            lemma_rotate_products(self.x as int, self.y as int, rotation.x as int,
                rotation.y as int);
            lemma_div_in_range(
                self.x * rotation.x - self.y * rotation.y,
                ONE as int,
                2 * COORD_MAX as int + 1,
            );
            lemma_div_in_range(
                self.x * rotation.y + self.y * rotation.x,
                ONE as int,
                2 * COORD_MAX as int + 1,
            );
        }
        let nx = div_floor(self.x * rotation.x - self.y * rotation.y, ONE);
        let ny = div_floor(self.x * rotation.y + self.y * rotation.x, ONE);
        self.x = nx;
        self.y = ny;
    }

    /// Scales the vector to (fixed-point) unit length.
    pub fn normalize(&mut self)
        requires
            bounded(*old(self), COORD_MAX as int),
            old(self).x != 0 || old(self).y != 0,
        ensures
            exists|len: int|
                #[trigger] is_sqrt(old(self).x * old(self).x + old(self).y * old(self).y, len)
                    && final(self).x == old(self).x * ONE / len && final(self).y == old(self).y
                    * ONE / len,
    {
        let len = self.magnitude();
        proof {
            let ox = old(self).x as int;
            let oy = old(self).y as int;
            assert(ox * ox + oy * oy >= 1) by (nonlinear_arith)
                requires
                    ox != 0 || oy != 0,
            ;
            let sq = ox * ox + oy * oy;
            assert(sq <= 2 * (COORD_MAX * COORD_MAX)) by (nonlinear_arith)
                requires
                    -COORD_MAX <= ox <= COORD_MAX,
                    -COORD_MAX <= oy <= COORD_MAX,
                    sq == ox * ox + oy * oy,
            ;
            assert(len >= 1) by (nonlinear_arith)
                requires
                    len >= 0,
                    sq < (len as int + 1) * (len as int + 1),
                    sq >= 1,
            ;
            assert(len <= 0x1_0000_0000) by (nonlinear_arith)
                requires
                    len >= 0,
                    len * len <= sq,
                    sq <= 2 * (COORD_MAX * COORD_MAX),
            ;
            assert(-(COORD_MAX * ONE) <= ox * ONE <= COORD_MAX * ONE) by (nonlinear_arith)
                requires
                    -COORD_MAX <= ox <= COORD_MAX,
            ;
            assert(-(COORD_MAX * ONE) <= oy * ONE <= COORD_MAX * ONE) by (nonlinear_arith)
                requires
                    -COORD_MAX <= oy <= COORD_MAX,
            ;
        }
        let nx = div_floor(self.x * ONE, len);
        let ny = div_floor(self.y * ONE, len);
        proof {
            let ghost l = len as int;
            assert(is_sqrt(old(self).x * old(self).x + old(self).y * old(self).y, l)
                && nx == old(self).x * ONE / l && ny == old(self).y * ONE / l);
        }
        self.x = nx;
        self.y = ny;
    }
}

/// Bounds for the two bilinear forms a rotation computes.
proof fn lemma_rotate_products(x: int, y: int, rx: int, ry: int)
    requires
        -COORD_MAX <= x <= COORD_MAX,
        -COORD_MAX <= y <= COORD_MAX,
        -ONE <= rx <= ONE,
        -ONE <= ry <= ONE,
    ensures
        -((2 * COORD_MAX as int + 1) * ONE) <= x * rx - y * ry <= (2 * COORD_MAX as int + 1)
            * ONE,
        -((2 * COORD_MAX as int + 1) * ONE) <= x * ry + y * rx <= (2 * COORD_MAX as int + 1)
            * ONE,
        -(COORD_MAX * ONE) <= x * rx <= COORD_MAX * ONE,
        -(COORD_MAX * ONE) <= y * ry <= COORD_MAX * ONE,
        -(COORD_MAX * ONE) <= x * ry <= COORD_MAX * ONE,
        -(COORD_MAX * ONE) <= y * rx <= COORD_MAX * ONE,
{
    assert(-(COORD_MAX * ONE) <= x * rx <= COORD_MAX * ONE) by (nonlinear_arith)
        requires
            -COORD_MAX <= x <= COORD_MAX,
            -ONE <= rx <= ONE,
    ;
    assert(-(COORD_MAX * ONE) <= y * ry <= COORD_MAX * ONE) by (nonlinear_arith)
        requires
            -COORD_MAX <= y <= COORD_MAX,
            -ONE <= ry <= ONE,
    ;
    assert(-(COORD_MAX * ONE) <= x * ry <= COORD_MAX * ONE) by (nonlinear_arith)
        requires
            -COORD_MAX <= x <= COORD_MAX,
            -ONE <= ry <= ONE,
    ;
    assert(-(COORD_MAX * ONE) <= y * rx <= COORD_MAX * ONE) by (nonlinear_arith)
        requires
            -COORD_MAX <= y <= COORD_MAX,
            -ONE <= rx <= ONE,
    ;
    assert((2 * COORD_MAX as int + 1) * ONE == 2 * (COORD_MAX * ONE) + ONE) by (nonlinear_arith);
}

} // verus!
