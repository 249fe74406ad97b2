//! Obstacle shapes: axis-aligned rectangles, rotated rectangles and circles,
//! with point containment and the outward surface angle used for bounces.

use vstd::prelude::*;
use crate::fx::{ONE, PI, HALF_PI, TWO_PI, ARENA_MAX, TEST_MAX, ROT_MAX, COORD_MAX, abs_spec,
    abs_fx, in_arena, lemma_div_ge, lemma_div_in_range};
use crate::trig::{sin_spec, cos_spec, atan2_spec, lemma_sin_zero, lemma_cos_zero,
    lemma_unit_lower};
use crate::vec2::{Vec2, bounded, rot_x, rot_y};

verus! {

/// An obstacle. `pos` is the centre; `w_h` holds half-extents; `rot` is the
/// rectangle's rotation and `r` the circle's radius.
#[derive(Clone, Copy, Debug, PartialEq, Eq, Structural)]
pub enum Shape {
    Rect { pos: Vec2, w_h: Vec2 },
    RotRect { pos: Vec2, w_h: Vec2, rot: i64 },
    Circle { pos: Vec2, r: i64 },
}

impl Shape {
    /// Well-formed: centre in the arena, non-negative extents and radius,
    /// rotation within the supported accumulated range.
    pub open spec fn wf(self) -> bool {
        match self {
            Shape::Rect { pos, w_h } => bounded(pos, ARENA_MAX as int) && 0 <= w_h.x
                <= ARENA_MAX && 0 <= w_h.y <= ARENA_MAX,
            Shape::RotRect { pos, w_h, rot } => bounded(pos, ARENA_MAX as int) && 0 <= w_h.x
                <= ARENA_MAX && 0 <= w_h.y <= ARENA_MAX && -ROT_MAX <= rot <= ROT_MAX,
            Shape::Circle { pos, r } => bounded(pos, ARENA_MAX as int) && 0 <= r <= ARENA_MAX,
        }
    }
}

/// A point strictly inside the open box around `(cx, cy)` with half-extents
/// `(wx, wy)`.
pub open spec fn rect_contains(cx: int, cy: int, wx: int, wy: int, px: int, py: int) -> bool {
    cx - wx < px < cx + wx && cy - wy < py < cy + wy
}

/// Containment for the rotated box: the point is carried into the box's
/// local frame by the inverse rotation about the centre, then tested as an
/// axis-aligned box.
pub open spec fn rot_rect_contains(
    cx: int,
    cy: int,
    wx: int,
    wy: int,
    rot: int,
    px: int,
    py: int,
) -> bool {
    let c = cos_spec(-rot);
    let s = sin_spec(-rot);
    let dx = px - cx;
    let dy = py - cy;
    rect_contains(cx, cy, wx, wy, rot_x(dx, dy, c, s) + cx, rot_y(dx, dy, c, s) + cy)
}

/// A point strictly inside the open disc.
pub open spec fn circle_contains(cx: int, cy: int, r: int, px: int, py: int) -> bool {
    (px - cx) * (px - cx) + (py - cy) * (py - cy) < r * r
}

/// Containment for any shape.
pub open spec fn shape_contains(s: Shape, px: int, py: int) -> bool {
    match s {
        Shape::Rect { pos, w_h } => rect_contains(pos.x as int, pos.y as int, w_h.x as int,
            w_h.y as int, px, py),
        Shape::RotRect { pos, w_h, rot } => rot_rect_contains(pos.x as int, pos.y as int,
            w_h.x as int, w_h.y as int, rot as int, px, py),
        Shape::Circle { pos, r } => circle_contains(pos.x as int, pos.y as int, r as int, px, py),
    }
}

/// The outward angle of the nearest axis-aligned edge: one of the four
/// cardinal angles, picked by which axis offset is larger.
pub open spec fn rect_surface(cx: int, cy: int, px: int, py: int) -> int {
    let dx = px - cx;
    let dy = py - cy;
    if abs_spec(dy) < abs_spec(dx) {
        if dx > 0 {
            0
        } else {
            PI as int
        }
    } else {
        if dy > 0 {
            -HALF_PI as int
        } else {
            HALF_PI as int
        }
    }
}

/// The surface angle of any shape at a contact point: cardinal for boxes
/// (carried through the box's rotation), radial for circles.
pub open spec fn shape_surface(s: Shape, px: int, py: int) -> int {
    match s {
        Shape::Rect { pos, w_h } => rect_surface(pos.x as int, pos.y as int, px, py),
        Shape::RotRect { pos, w_h, rot } => {
            let c = cos_spec(-rot);
            let sn = sin_spec(-rot);
            let dx = px - pos.x;
            let dy = py - pos.y;
            rect_surface(pos.x as int, pos.y as int, rot_x(dx, dy, c, sn) + pos.x,
                rot_y(dx, dy, c, sn) + pos.y) + rot
        },
        Shape::Circle { pos, r } => atan2_spec(py - pos.y, px - pos.x),
    }
}

/// The axis-aligned box test.
fn rect_hit(cx: i64, cy: i64, wx: i64, wy: i64, px: i64, py: i64) -> (r: bool)
    requires
        in_arena(cx as int),
        in_arena(cy as int),
        0 <= wx <= ARENA_MAX,
        0 <= wy <= ARENA_MAX,
    ensures
        r == rect_contains(cx as int, cy as int, wx as int, wy as int, px as int, py as int),
{
    cx - wx < px && px < cx + wx && cy - wy < py && py < cy + wy
}

impl Shape {
    /// The standard container side wall, an axis-aligned box of fixed size.
    pub fn container_side(x: i64, y: i64) -> (r: Shape)
        requires
            in_arena(x as int),
            in_arena(y as int),
        ensures
            r == (Shape::Rect {
                pos: Vec2 { x, y },
                w_h: Vec2 { x: 130328, y: 64414 },
            }),
            r.wf(),
    {
        Shape::Rect { pos: Vec2::new(x, y), w_h: Vec2::new(130328, 64414) }
    }

    /// Turns the shape a quarter turn: a box swaps its extents, a rotated
    /// box grows its rotation, a circle is unchanged.
    pub fn rotate_90(&mut self)
        requires
            old(self).wf(),
        ensures
            final (self).wf(),
            match (*old(self), *final (self)) {
                (Shape::Rect { pos: p0, w_h: w0 }, Shape::Rect { pos: p1, w_h: w1 }) => p1 == p0
                    && w1.x == w0.y && w1.y == w0.x,
                (
                    Shape::RotRect { pos: p0, w_h: w0, rot: r0 },
                    Shape::RotRect { pos: p1, w_h: w1, rot: r1 },
                ) => p1 == p0 && w1 == w0 && r1 == if r0 + HALF_PI <= ROT_MAX {
                    r0 + HALF_PI
                } else {
                    // A full turn back keeps the angle's trigonometry intact.
                    r0 + HALF_PI - TWO_PI
                },
                (Shape::Circle { pos: p0, r: r0 }, Shape::Circle { pos: p1, r: r1 }) => p1 == p0
                    && r1 == r0,
                _ => false,
            },
    {
        let s = *self;
        *self = match s {
            Shape::Rect { pos, w_h } => Shape::Rect {
                pos,
                w_h: Vec2 { x: w_h.y, y: w_h.x },
            },
            Shape::RotRect { pos, w_h, rot } => Shape::RotRect {
                pos,
                w_h,
                rot: if rot + HALF_PI <= ROT_MAX {
                    rot + HALF_PI
                } else {
                    rot + HALF_PI - TWO_PI
                },
            },
            Shape::Circle { pos, r } => Shape::Circle { pos, r },
        };
    }

    /// Whether the probe point lies strictly inside the shape.
    pub fn intersects(&self, test: Vec2) -> (r: bool)
        requires
            self.wf(),
            bounded(test, TEST_MAX as int),
        ensures
            r == shape_contains(*self, test.x as int, test.y as int),
    {
        match self {
            Shape::Rect { pos, w_h } => rect_hit(pos.x, pos.y, w_h.x, w_h.y, test.x, test.y),
            Shape::RotRect { pos, w_h, rot } => {
                let center = *pos;
                let mut local = test.sub(center);
                let dir = Vec2::from_angle(-*rot);
                local.rotate(dir);
                let shifted = local.add(center);
                rect_hit(pos.x, pos.y, w_h.x, w_h.y, shifted.x, shifted.y)
            },
            Shape::Circle { pos, r } => {
                let dx = test.x - pos.x;
                let dy = test.y - pos.y;
                proof {
                    assert(0 <= dx * dx <= COORD_MAX * COORD_MAX) by (nonlinear_arith)
                        requires
                            -COORD_MAX <= dx <= COORD_MAX,
                    ;
                    assert(0 <= dy * dy <= COORD_MAX * COORD_MAX) by (nonlinear_arith)
                        requires
                            -COORD_MAX <= dy <= COORD_MAX,
                    ;
                    assert(0 <= (*r as int) * (*r as int) <= COORD_MAX * COORD_MAX)
                        by (nonlinear_arith)
                        requires
                            0 <= *r <= COORD_MAX,
                    ;
                }
                dx * dx + dy * dy < *r * *r
            },
        }
    }

    /// The outward surface angle at a contact point.
    pub fn surface_angle(&self, test: Vec2) -> (r: i64)
        requires
            self.wf(),
            bounded(test, TEST_MAX as int),
        ensures
            r == shape_surface(*self, test.x as int, test.y as int),
            -(ROT_MAX + PI) <= r <= ROT_MAX + PI,
    {
        match self {
            Shape::Rect { pos, w_h } => {
                let dx = test.x - pos.x;
                let dy = test.y - pos.y;
                if abs_fx(dy) < abs_fx(dx) {
                    if dx > 0 {
                        0
                    } else {
                        PI
                    }
                } else {
                    if dy > 0 {
                        -HALF_PI
                    } else {
                        HALF_PI
                    }
                }
            },
            Shape::RotRect { pos, w_h, rot } => {
                let center = *pos;
                let mut local = test.sub(center);
                let dir = Vec2::from_angle(-*rot);
                local.rotate(dir);
                let shifted = local.add(center);
                let dx = shifted.x - pos.x;
                let dy = shifted.y - pos.y;
                let base = if abs_fx(dy) < abs_fx(dx) {
                    if dx > 0 {
                        0
                    } else {
                        PI
                    }
                } else {
                    if dy > 0 {
                        -HALF_PI
                    } else {
                        HALF_PI
                    }
                };
                base + *rot
            },
            Shape::Circle { pos, r } => {
                let dy = test.y - pos.y;
                let dx = test.x - pos.x;
                crate::trig::atan2_fx(dy, dx)
            },
        }
    }
}

/// Law: the exact centre of a shape with positive extents (or radius) is
/// contained in it.
pub proof fn lemma_contains_center(s: Shape)
    requires
        s.wf(),
        match s {
            Shape::Rect { pos, w_h } => w_h.x >= 1 && w_h.y >= 1,
            Shape::RotRect { pos, w_h, rot } => w_h.x >= 1 && w_h.y >= 1,
            Shape::Circle { pos, r } => r >= 1,
        },
    ensures
        match s {
            Shape::Rect { pos, w_h } => shape_contains(s, pos.x as int, pos.y as int),
            Shape::RotRect { pos, w_h, rot } => shape_contains(s, pos.x as int, pos.y as int),
            Shape::Circle { pos, r } => shape_contains(s, pos.x as int, pos.y as int),
        },
{
    match s {
        Shape::Rect { pos, w_h } => {},
        Shape::RotRect { pos, w_h, rot } => {
            let c = cos_spec(-rot);
            let sn = sin_spec(-rot);
            assert(rot_x(0, 0, c, sn) == 0) by {
                vstd::arithmetic::div_mod::lemma_div_of0(ONE as int);
            }
            assert(rot_y(0, 0, c, sn) == 0) by {
                vstd::arithmetic::div_mod::lemma_div_of0(ONE as int);
            }
        },
        Shape::Circle { pos, r } => {
            assert((r as int) * (r as int) >= 1) by (nonlinear_arith)
                requires
                    r >= 1,
            ;
        },
    }
}

/// Law: a point well outside a shape's bounding region is not contained.
/// For the axis-aligned box and the circle the bound is exact; for the
/// rotated box any point whose squared distance from the centre reaches
/// `3 * (wx + wy + 2)^2` is out, a margin below twice the diagonal extent.
pub proof fn lemma_far_outside(s: Shape, px: int, py: int)
    requires
        s.wf(),
        match s {
            Shape::Rect { pos, w_h } => px <= pos.x - w_h.x || px >= pos.x + w_h.x || py <= pos.y
                - w_h.y || py >= pos.y + w_h.y,
            Shape::RotRect { pos, w_h, rot } => (px - pos.x) * (px - pos.x) + (py - pos.y) * (py
                - pos.y) >= 3 * ((w_h.x + w_h.y + 2) * (w_h.x + w_h.y + 2)),
            Shape::Circle { pos, r } => (px - pos.x) * (px - pos.x) + (py - pos.y) * (py - pos.y)
                >= r * r,
        },
    ensures
        !shape_contains(s, px, py),
{
    match s {
        Shape::Rect { pos, w_h } => {},
        Shape::RotRect { pos, w_h, rot } => {
            if shape_contains(s, px, py) {
                let c = cos_spec(-rot);
                let sn = sin_spec(-rot);
                let dx = px - pos.x;
                let dy = py - pos.y;
                let a = dx * c - dy * sn;
                let b = dx * sn + dy * c;
                let wx = w_h.x as int;
                let wy = w_h.y as int;
                // The local frame coordinates are inside the open box, so the
                // undivided bilinear forms are within one scale unit of it.
                assert(-wx < a / (ONE as int) < wx);
                assert(-wy < b / (ONE as int) < wy);
                lemma_quotient_window(a, wx);
                lemma_quotient_window(b, wy);
                // Rotation scales the squared norm by c^2 + s^2 exactly.
                lemma_rotation_norm(dx, dy, c, sn);
                lemma_unit_lower(-rot);
                assert(c * c + sn * sn >= 490000);
                let dsq = dx * dx + dy * dy;
                assert(dsq * 490000 <= dsq * (c * c + sn * sn)) by (nonlinear_arith)
                    requires
                        dsq >= 0,
                        c * c + sn * sn >= 490000,
                ;
                assert(a * a < ((wx + 1) * ONE) * ((wx + 1) * ONE)) by (nonlinear_arith)
                    requires
                        -((wx + 1) * ONE) < a < (wx + 1) * ONE,
                ;
                assert(b * b < ((wy + 1) * ONE) * ((wy + 1) * ONE)) by (nonlinear_arith)
                    requires
                        -((wy + 1) * ONE) < b < (wy + 1) * ONE,
                ;
                assert(dsq * 490000 <= a * a + b * b);
                // Chain the bounds: the far hypothesis contradicts the box fit.
                assert(((wx + 1) * ONE) * ((wx + 1) * ONE) + ((wy + 1) * ONE) * ((wy + 1) * ONE)
                    <= 1048576 * ((wx + wy + 2) * (wx + wy + 2))) by (nonlinear_arith)
                    requires
                        wx >= 0,
                        wy >= 0,
                        ONE == 1024,
                ;
                assert(3 * ((wx + wy + 2) * (wx + wy + 2)) * 490000 >= 1048576 * ((wx + wy + 2)
                    * (wx + wy + 2))) by (nonlinear_arith)
                    requires
                        wx >= 0,
                        wy >= 0,
                ;
                assert(dsq * 490000 >= 3 * ((wx + wy + 2) * (wx + wy + 2)) * 490000)
                    by (nonlinear_arith)
                    requires
                        dsq >= 3 * ((wx + wy + 2) * (wx + wy + 2)),
                ;
                assert(false);
            }
        },
        Shape::Circle { pos, r } => {},
    }
}

/// The two bilinear forms of a rotation preserve the squared norm up to the
/// squared norm of the rotation pair.
#[verifier::rlimit(100)]
proof fn lemma_rotation_norm(dx: int, dy: int, c: int, sn: int)
    ensures
        (dx * c - dy * sn) * (dx * c - dy * sn) + (dx * sn + dy * c) * (dx * sn + dy * c) == (dx
            * dx + dy * dy) * (c * c + sn * sn),
{
    let a = dx * c - dy * sn;
    let b = dx * sn + dy * c;
    assert(a * a == (dx * c) * (dx * c) - 2 * ((dx * c) * (dy * sn)) + (dy * sn) * (dy * sn))
        by (nonlinear_arith)
        requires
            a == dx * c - dy * sn,
    ;
    assert(b * b == (dx * sn) * (dx * sn) + 2 * ((dx * sn) * (dy * c)) + (dy * c) * (dy * c))
        by (nonlinear_arith)
        requires
            b == dx * sn + dy * c,
    ;
    assert((dx * c) * (dy * sn) == (dx * sn) * (dy * c)) by (nonlinear_arith);
    assert((dx * c) * (dx * c) == (dx * dx) * (c * c)) by (nonlinear_arith);
    assert((dy * sn) * (dy * sn) == (dy * dy) * (sn * sn)) by (nonlinear_arith);
    assert((dx * sn) * (dx * sn) == (dx * dx) * (sn * sn)) by (nonlinear_arith);
    assert((dy * c) * (dy * c) == (dy * dy) * (c * c)) by (nonlinear_arith);
    assert((dx * dx) * (c * c) + (dy * dy) * (sn * sn) + (dx * dx) * (sn * sn) + (dy * dy) * (c
        * c) == (dx * dx + dy * dy) * (c * c + sn * sn)) by (nonlinear_arith);
}

/// If the floor quotient of `a` by `ONE` lies strictly inside `(-w, w)`,
/// then `a` itself lies strictly inside `(-(w+1)*ONE, (w+1)*ONE)`.
proof fn lemma_quotient_window(a: int, w: int)
    requires
        w >= 0,
        -w < a / (ONE as int) < w,
    ensures
        -((w + 1) * ONE) < a < (w + 1) * ONE,
{
    if a >= (w + 1) * ONE {
        lemma_div_ge(a, ONE as int, w + 1);
    }
    if a <= -((w + 1) * ONE) {
        vstd::arithmetic::div_mod::lemma_div_is_ordered(a, -((w + 1) * ONE), ONE as int);
        vstd::arithmetic::div_mod::lemma_div_multiples_vanish(-(w + 1), ONE as int);
        assert((ONE as int) * (-(w + 1)) == -((w + 1) * ONE)) by (nonlinear_arith);
    }
}

/// Law: a box rotated by the zero angle contains exactly the points its
/// axis-aligned counterpart contains.
pub proof fn lemma_rot_zero_matches_rect(
    cx: int,
    cy: int,
    wx: int,
    wy: int,
    px: int,
    py: int,
)
    ensures
        rot_rect_contains(cx, cy, wx, wy, 0, px, py) == rect_contains(cx, cy, wx, wy, px, py),
{
    lemma_sin_zero();
    lemma_cos_zero();
    let dx = px - cx;
    let dy = py - cy;
    assert(rot_x(dx, dy, ONE as int, 0) == dx) by {
        assert(dx * (ONE as int) - dy * 0 == (ONE as int) * dx) by (nonlinear_arith);
        vstd::arithmetic::div_mod::lemma_div_multiples_vanish(dx, ONE as int);
    }
    assert(rot_y(dx, dy, ONE as int, 0) == dy) by {
        assert(dx * 0 + dy * (ONE as int) == (ONE as int) * dy) by (nonlinear_arith);
        vstd::arithmetic::div_mod::lemma_div_multiples_vanish(dy, ONE as int);
    }
}

} // verus!
