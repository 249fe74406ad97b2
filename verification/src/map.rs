//! The obstacle field and the ray caster.
//!
//! A ray marches from a source point in fixed-size steps and reports the
//! first obstacle hit. A batch of rays is split into up to four contiguous
//! chunks, each evaluated without touching any state the others read; the
//! batch contract pins every entry to the same single-ray function of the
//! inputs, so any evaluation order of the chunks returns exactly what a
//! sequential pass would.

use vstd::prelude::*;
use crate::fx::{ONE, PI, ARENA_MAX, PROBE_MAX, ROT_MAX, small, abs_spec, lemma_div_in_range};
use crate::trig::{sin_spec, cos_spec};
use crate::vec2::{Vec2, bounded};
use crate::shape::{Shape, shape_contains, shape_surface};

verus! {

/// Every shape of the field is well-formed.
pub open spec fn shapes_wf(shapes: Seq<Shape>) -> bool {
    forall|i: int| 0 <= i < shapes.len() ==> #[trigger] shapes[i].wf()
}

/// Some shape of the field contains the point.
pub open spec fn field_contains(shapes: Seq<Shape>, px: int, py: int) -> bool {
    exists|i: int| 0 <= i < shapes.len() && shape_contains(#[trigger] shapes[i], px, py)
}

/// The first shape, in field order, that contains the point.
pub open spec fn first_containing(shapes: Seq<Shape>, px: int, py: int) -> Option<Shape>
    decreases shapes.len(),
{
    if shapes.len() == 0 {
        None
    } else if shape_contains(shapes[0], px, py) {
        Some(shapes[0])
    } else {
        first_containing(shapes.skip(1), px, py)
    }
}

/// When no shape among the first `i` contains the point, the search outcome
/// is decided by the rest of the field.
proof fn lemma_first_skip(shapes: Seq<Shape>, px: int, py: int, i: int)
    requires
        0 <= i <= shapes.len(),
        forall|j: int| 0 <= j < i ==> !shape_contains(#[trigger] shapes[j], px, py),
    ensures
        first_containing(shapes, px, py) == first_containing(shapes.skip(i), px, py),
    decreases i,
{
    if i == 0 {
        assert(shapes.skip(0) =~= shapes);
    } else {
        lemma_first_skip(shapes, px, py, i - 1);
        let tail = shapes.skip(i - 1);
        assert(tail[0] == shapes[i - 1]);
        assert(tail.skip(1) =~= shapes.skip(i));
    }
}

/// A shape found by the ordered scan is one of the field's shapes.
pub proof fn lemma_first_containing_in(shapes: Seq<Shape>, px: int, py: int)
    requires
        first_containing(shapes, px, py) is Some,
    ensures
        exists|i: int| 0 <= i < shapes.len() && #[trigger] shapes[i]
            == first_containing(shapes, px, py)->Some_0 && shape_contains(shapes[i], px, py),
    decreases shapes.len(),
{
    if shapes.len() > 0 {
        if shape_contains(shapes[0], px, py) {
            assert(shapes[0] == first_containing(shapes, px, py)->Some_0);
        } else {
            lemma_first_containing_in(shapes.skip(1), px, py);
            let i = choose|i: int| 0 <= i < shapes.skip(1).len() && #[trigger] shapes.skip(1)[i]
                == first_containing(shapes.skip(1), px, py)->Some_0 && shape_contains(
                shapes.skip(1)[i], px, py);
            assert(shapes[i + 1] == shapes.skip(1)[i]);
        }
    }
}

/// The probe offset of one step along the ray.
pub open spec fn step_vec_x(angle: int, step_size: int) -> int {
    cos_spec(angle) * step_size / (ONE as int)
}

pub open spec fn step_vec_y(angle: int, step_size: int) -> int {
    sin_spec(angle) * step_size / (ONE as int)
}

/// The probe point after `s` steps.
pub open spec fn probe_x(source: Vec2, angle: int, step_size: int, s: int) -> int {
    source.x + step_vec_x(angle, step_size) * s
}

pub open spec fn probe_y(source: Vec2, angle: int, step_size: int, s: int) -> int {
    source.y + step_vec_y(angle, step_size) * s
}

/// The first step in `[start, end)` whose probe point hits the field, or
/// `end` when none does.
pub open spec fn cast_hit_step(
    shapes: Seq<Shape>,
    source: Vec2,
    angle: int,
    step_size: int,
    start: int,
    end: int,
) -> int
    decreases end - start,
{
    if start >= end {
        end
    } else if field_contains(shapes, probe_x(source, angle, step_size, start),
        probe_y(source, angle, step_size, start)) {
        start
    } else {
        cast_hit_step(shapes, source, angle, step_size, start + 1, end)
    }
}

/// What a single ray cast returns: the hit step (or `end`), the probe point
/// at that step (on a miss, the last probe point, or the source for an empty
/// range), and the first shape hit (or nothing).
pub open spec fn cast_matches(
    r: (Option<Shape>, Vec2, usize),
    shapes: Seq<Shape>,
    source: Vec2,
    angle: int,
    step_size: int,
    start: int,
    end: int,
) -> bool {
    let h = cast_hit_step(shapes, source, angle, step_size, start, end);
    &&& r.2 as int == h
    &&& h < end ==> {
        &&& r.1.x as int == probe_x(source, angle, step_size, h)
        &&& r.1.y as int == probe_y(source, angle, step_size, h)
        &&& r.0 == first_containing(shapes, r.1.x as int, r.1.y as int)
        &&& r.0 is Some
    }
    &&& h == end ==> {
        &&& r.0 is None
        &&& (start < end ==> r.1.x as int == probe_x(source, angle, step_size, end - 1)
            && r.1.y as int == probe_y(source, angle, step_size, end - 1))
        &&& (start >= end ==> r.1 == source)
    }
}

/// The position a single ray cast reports, as a function of its inputs:
/// the probe point at the hit step, the last probe point on a miss, or the
/// source for an empty range.
pub open spec fn cast_point_x(
    shapes: Seq<Shape>,
    source: Vec2,
    angle: int,
    step_size: int,
    start: int,
    end: int,
) -> int {
    let h = cast_hit_step(shapes, source, angle, step_size, start, end);
    if h < end {
        probe_x(source, angle, step_size, h)
    } else if start < end {
        probe_x(source, angle, step_size, end - 1)
    } else {
        source.x as int
    }
}

pub open spec fn cast_point_y(
    shapes: Seq<Shape>,
    source: Vec2,
    angle: int,
    step_size: int,
    start: int,
    end: int,
) -> int {
    let h = cast_hit_step(shapes, source, angle, step_size, start, end);
    if h < end {
        probe_y(source, angle, step_size, h)
    } else if start < end {
        probe_y(source, angle, step_size, end - 1)
    } else {
        source.y as int
    }
}

/// The hit step never passes the end of the range.
proof fn lemma_cast_hit_step_range(
    shapes: Seq<Shape>,
    source: Vec2,
    angle: int,
    step_size: int,
    start: int,
    end: int,
)
    ensures
        cast_hit_step(shapes, source, angle, step_size, start, end) <= end,
    decreases end - start,
{
    if start < end && !field_contains(shapes, probe_x(source, angle, step_size, start),
        probe_y(source, angle, step_size, start)) {
        lemma_cast_hit_step_range(shapes, source, angle, step_size, start + 1, end);
    }
}

/// A cast result's position coordinates equal the cast-point functions.
pub proof fn lemma_cast_point(
    r: (Option<Shape>, Vec2, usize),
    shapes: Seq<Shape>,
    source: Vec2,
    angle: int,
    step_size: int,
    start: int,
    end: int,
)
    requires
        cast_matches(r, shapes, source, angle, step_size, start, end),
    ensures
        r.1.x as int == cast_point_x(shapes, source, angle, step_size, start, end),
        r.1.y as int == cast_point_y(shapes, source, angle, step_size, start, end),
{
    lemma_cast_hit_step_range(shapes, source, angle, step_size, start, end);
    let h = cast_hit_step(shapes, source, angle, step_size, start, end);
    if h < end {
        assert(r.1.x as int == probe_x(source, angle, step_size, h));
    } else if start < end {
        assert(h == end);
        assert(r.1.x as int == probe_x(source, angle, step_size, end - 1));
    } else {
        assert(r.1 == source);
    }
}

/// The reflected heading after a bounce: mirror about the surface normal,
/// then turn half a circle to leave the surface.
pub open spec fn bounce_spec(s: Shape, px: int, py: int, angle: int) -> int {
    2 * shape_surface(s, px, py) - (angle + PI)
}

/// Bounds that make a ray march safe: the source plus the whole march
/// budget stays within the probe range, and the step arithmetic cannot
/// overflow.
pub open spec fn cast_safe(source: Vec2, angle: int, step_size: int, end: int) -> bool {
    &&& small(angle)
    &&& 0 < step_size <= 0x10_0000
    &&& 0 <= end
    &&& abs_spec(source.x as int) + (step_size + 1) * end <= PROBE_MAX
    &&& abs_spec(source.y as int) + (step_size + 1) * end <= PROBE_MAX
}

/// The first shape of the field containing the point, scanned in order.
fn first_hit(shapes: &Vec<Shape>, p: Vec2) -> (r: Option<Shape>)
    requires
        shapes_wf(shapes@),
        bounded(p, PROBE_MAX as int),
    ensures
        r == first_containing(shapes@, p.x as int, p.y as int),
        r is Some <==> field_contains(shapes@, p.x as int, p.y as int),
{
    let mut i: usize = 0;
    while i < shapes.len()
        invariant
            0 <= i <= shapes@.len(),
            shapes_wf(shapes@),
            bounded(p, PROBE_MAX as int),
            forall|j: int| 0 <= j < i ==> !shape_contains(#[trigger] shapes@[j], p.x as int,
                p.y as int),
        decreases shapes@.len() - i,
    {
        let sh = shapes[i];
        if sh.intersects(p) {
            proof {
                lemma_first_skip(shapes@, p.x as int, p.y as int, i as int);
                assert(shapes@.skip(i as int)[0] == shapes@[i as int]);
            }
            return Some(sh);
        }
        i += 1;
    }
    proof {
        lemma_first_skip(shapes@, p.x as int, p.y as int, shapes@.len() as int);
        assert(shapes@.skip(shapes@.len() as int) =~= Seq::<Shape>::empty());
        assert(!field_contains(shapes@, p.x as int, p.y as int));
    }
    None
}

/// The immutable obstacle field: an ordered list of shapes.
#[derive(Clone, Debug)]
pub struct ObstacleField {
    pub shapes: Vec<Shape>,
}

impl ObstacleField {
    /// Every shape is well-formed.
    pub open spec fn wf(self) -> bool {
        shapes_wf(self.shapes@)
    }

    /// Builds the field from an ordered list of already validated shapes.
    pub fn new(shapes: Vec<Shape>) -> (r: ObstacleField)
        requires
            shapes_wf(shapes@),
        ensures
            r.shapes@ == shapes@,
            r.wf(),
    {
        ObstacleField { shapes }
    }

    /// Whether any obstacle contains the point.
    pub fn intersects(&self, point: Vec2) -> (r: bool)
        requires
            self.wf(),
            bounded(point, PROBE_MAX as int),
        ensures
            r == field_contains(self.shapes@, point.x as int, point.y as int),
    {
        let hit = first_hit(&self.shapes, point);
        hit.is_some()
    }

    /// Marches one ray and reports the first hit, its position and its step.
    pub fn single_cast(
        source: Vec2,
        angle: i64,
        step_size: i64,
        start: usize,
        end: usize,
        shapes: &Vec<Shape>,
    ) -> (r: (Option<Shape>, Vec2, usize))
        requires
            shapes_wf(shapes@),
            cast_safe(source, angle as int, step_size as int, end as int),
        ensures
            cast_matches(r, shapes@, source, angle as int, step_size as int, start as int,
                end as int),
            bounded(r.1, PROBE_MAX as int),
    {
        let dir = Vec2::from_angle(angle);
        proof {
            lemma_step_bounds(angle as int, step_size as int);
        }
        let step = dir.mul_fx(step_size);
        if start >= end {
            return (None, source, end);
        }
        let mut test = source;
        let mut s = start;
        while s < end
            invariant
                start <= s <= end,
                start < end,
                shapes_wf(shapes@),
                cast_safe(source, angle as int, step_size as int, end as int),
                step.x as int == step_vec_x(angle as int, step_size as int),
                step.y as int == step_vec_y(angle as int, step_size as int),
                -step_size - 1 <= step.x <= step_size,
                -step_size - 1 <= step.y <= step_size,
                cast_hit_step(shapes@, source, angle as int, step_size as int, start as int,
                    end as int) == cast_hit_step(shapes@, source, angle as int,
                    step_size as int, s as int, end as int),
                s > start ==> test.x as int == probe_x(source, angle as int, step_size as int,
                    s as int - 1) && test.y as int == probe_y(source, angle as int,
                    step_size as int, s as int - 1),
                bounded(test, PROBE_MAX as int),
            decreases end - s,
        {
            proof {
                assert(2 * (end as int) <= (step_size as int + 1) * (end as int))
                    by (nonlinear_arith)
                    requires
                        step_size >= 1,
                        end >= 0,
                ;
                lemma_probe_bounds(source, angle as int, step_size as int, s as int, end as int,
                    step.x as int, step.y as int);
            }
            test = source.add(step.scale(s as i64));
            let hit = first_hit(shapes, test);
            if let Some(shape) = hit {
                return (Some(shape), test, s);
            }
            s += 1;
        }
        (None, test, end)
    }

    /// Casts the slice `[lo, hi)` of the angle list, in order.
    fn cast_range(
        source: Vec2,
        angles: &Vec<i64>,
        step_size: i64,
        start: usize,
        end: usize,
        shapes: &Vec<Shape>,
        lo: usize,
        hi: usize,
    ) -> (r: Vec<(Option<Shape>, Vec2, usize)>)
        requires
            shapes_wf(shapes@),
            lo <= hi <= angles@.len(),
            forall|i: int| 0 <= i < angles@.len() ==> cast_safe(source, #[trigger] angles@[i]
                as int, step_size as int, end as int),
        ensures
            r@.len() == hi - lo,
            forall|k: int| 0 <= k < r@.len() ==> cast_matches(#[trigger] r@[k], shapes@, source,
                angles@[lo + k] as int, step_size as int, start as int, end as int),
            forall|k: int| 0 <= k < r@.len() ==> bounded((#[trigger] r@[k]).1, PROBE_MAX as int),
    {
        let mut out: Vec<(Option<Shape>, Vec2, usize)> = Vec::new();
        let mut i: usize = lo;
        while i < hi
            invariant
                lo <= i <= hi <= angles@.len(),
                out@.len() == i - lo,
                shapes_wf(shapes@),
                forall|k: int| 0 <= k < angles@.len() ==> cast_safe(source, #[trigger] angles@[k]
                    as int, step_size as int, end as int),
                forall|k: int| 0 <= k < out@.len() ==> cast_matches(#[trigger] out@[k], shapes@,
                    source, angles@[lo + k] as int, step_size as int, start as int, end as int),
                forall|k: int|
                    0 <= k < out@.len() ==> bounded((#[trigger] out@[k]).1, PROBE_MAX as int),
            decreases hi - i,
        {
            let one = Self::single_cast(source, angles[i], step_size, start, end, shapes);
            out.push(one);
            i += 1;
        }
        out
    }

    /// Evaluates a batch of rays by partitioning the angle list into at most
    /// `workers` contiguous chunks, evaluating chunk after chunk and
    /// concatenating the results in the order the angles were given. Each
    /// chunk only reads the field, so the partitioning cannot change the
    /// outcome: every entry is pinned to the single-ray result.
    fn para_cast(
        source: Vec2,
        angles: &Vec<i64>,
        step_size: i64,
        start: usize,
        end: usize,
        shapes: &Vec<Shape>,
        workers: usize,
    ) -> (r: Vec<(Option<Shape>, Vec2, usize)>)
        requires
            shapes_wf(shapes@),
            workers >= 1,
            angles@.len() <= 0x1000_0000,
            forall|i: int| 0 <= i < angles@.len() ==> cast_safe(source, #[trigger] angles@[i]
                as int, step_size as int, end as int),
        ensures
            r@.len() == angles@.len(),
            forall|i: int| 0 <= i < angles@.len() ==> cast_matches(#[trigger] r@[i], shapes@,
                source, angles@[i] as int, step_size as int, start as int, end as int),
            forall|i: int| 0 <= i < angles@.len() ==> bounded((#[trigger] r@[i]).1,
                PROBE_MAX as int),
    {
        proof {
            vstd::arithmetic::div_mod::lemma_div_nonincreasing(angles@.len() as int,
                workers as int);
        }
        let chunk_size = angles.len() / workers + 1;
        let mut out: Vec<(Option<Shape>, Vec2, usize)> = Vec::new();
        let mut lo: usize = 0;
        while lo < angles.len()
            invariant
                0 <= lo <= angles@.len() <= 0x1000_0000,
                1 <= chunk_size <= 0x1000_0001,
                out@.len() == lo,
                shapes_wf(shapes@),
                forall|i: int| 0 <= i < angles@.len() ==> cast_safe(source, #[trigger] angles@[i]
                    as int, step_size as int, end as int),
                forall|i: int| 0 <= i < out@.len() ==> cast_matches(#[trigger] out@[i], shapes@,
                    source, angles@[i] as int, step_size as int, start as int, end as int),
                forall|i: int|
                    0 <= i < out@.len() ==> bounded((#[trigger] out@[i]).1, PROBE_MAX as int),
            decreases angles@.len() - lo,
        {
            let hi = if lo + chunk_size < angles.len() {
                lo + chunk_size
            } else {
                angles.len()
            };
            let part = Self::cast_range(source, angles, step_size, start, end, shapes, lo, hi);
            let mut j: usize = 0;
            while j < part.len()
                invariant
                    0 <= j <= part@.len(),
                    part@.len() == hi - lo,
                    lo <= hi <= angles@.len(),
                    out@.len() == lo + j,
                    forall|k: int| 0 <= k < part@.len() ==> cast_matches(#[trigger] part@[k],
                        shapes@, source, angles@[lo + k] as int, step_size as int, start as int,
                        end as int),
                    forall|i: int| 0 <= i < out@.len() ==> cast_matches(#[trigger] out@[i],
                        shapes@, source, angles@[i] as int, step_size as int, start as int,
                        end as int),
                    forall|k: int|
                        0 <= k < part@.len() ==> bounded((#[trigger] part@[k]).1,
                            PROBE_MAX as int),
                    forall|i: int|
                        0 <= i < out@.len() ==> bounded((#[trigger] out@[i]).1, PROBE_MAX as int),
                decreases part@.len() - j,
            {
                out.push(part[j]);
                j += 1;
            }
            lo = hi;
        }
        out
    }

    /// Evaluates one cast per angle and returns the results in the angles'
    /// order. The batch is split into at most four chunks; the contract
    /// pins every entry to the same function of the inputs as a lone
    /// `single_cast`, so batch and sequential evaluation agree exactly.
    pub fn ray_cast(
        &self,
        source: Vec2,
        angles: &Vec<i64>,
        step_size: i64,
        start: usize,
        end: usize,
    ) -> (r: Vec<(Option<Shape>, Vec2, usize)>)
        requires
            self.wf(),
            angles@.len() <= 0x1000_0000,
            forall|i: int| 0 <= i < angles@.len() ==> cast_safe(source, #[trigger] angles@[i]
                as int, step_size as int, end as int),
        ensures
            r@.len() == angles@.len(),
            forall|i: int| 0 <= i < angles@.len() ==> cast_matches(#[trigger] r@[i],
                self.shapes@, source, angles@[i] as int, step_size as int, start as int,
                end as int),
            forall|i: int| 0 <= i < angles@.len() ==> bounded((#[trigger] r@[i]).1,
                PROBE_MAX as int),
    {
        let chunk_cnt = if angles.len() < 4 {
            angles.len()
        } else {
            4
        };
        let workers = if chunk_cnt == 0 {
            1
        } else {
            chunk_cnt
        };
        Self::para_cast(source, angles, step_size, start, end, &self.shapes, workers)
    }

    /// The reflected heading after striking a shape at a point.
    pub fn get_bounce(pos: Vec2, angle: i64, shape: Shape) -> (r: i64)
        requires
            shape.wf(),
            bounded(pos, PROBE_MAX as int),
            abs_spec(angle as int) <= 0x1000_0000_0000,
        ensures
            r == bounce_spec(shape, pos.x as int, pos.y as int, angle as int),
            abs_spec(r as int) <= 2 * (ROT_MAX + PI) + abs_spec(angle as int) + PI,
    {
        let s_angle = shape.surface_angle(pos);
        2 * s_angle - (angle + PI)
    }
}

/// The step offset never exceeds the step size (plus one toward negative).
pub proof fn lemma_step_bounds(angle: int, step_size: int)
    requires
        0 < step_size <= 0x10_0000,
    ensures
        -step_size - 1 <= step_vec_x(angle, step_size) <= step_size,
        -step_size - 1 <= step_vec_y(angle, step_size) <= step_size,
        small(cos_spec(angle) * step_size),
        small(sin_spec(angle) * step_size),
{
    crate::trig::lemma_sin_cos_bounds(angle);
    let c = cos_spec(angle);
    let sn = sin_spec(angle);
    assert(-(ONE * step_size) <= c * step_size <= ONE * step_size) by (nonlinear_arith)
        requires
            -ONE <= c <= ONE,
            step_size > 0,
    ;
    assert(-(ONE * step_size) <= sn * step_size <= ONE * step_size) by (nonlinear_arith)
        requires
            -ONE <= sn <= ONE,
            step_size > 0,
    ;
    assert(ONE * step_size == step_size * (ONE as int)) by (nonlinear_arith);
    lemma_div_in_range(c * step_size, ONE as int, step_size);
    lemma_div_in_range(sn * step_size, ONE as int, step_size);
}

/// Probe points stay inside the probe range while the march is safe.
proof fn lemma_probe_bounds(
    source: Vec2,
    angle: int,
    step_size: int,
    s: int,
    end: int,
    sx: int,
    sy: int,
)
    requires
        cast_safe(source, angle, step_size, end),
        0 <= s < end,
        sx == step_vec_x(angle, step_size),
        sy == step_vec_y(angle, step_size),
        -step_size - 1 <= sx <= step_size,
        -step_size - 1 <= sy <= step_size,
    ensures
        -PROBE_MAX <= probe_x(source, angle, step_size, s) <= PROBE_MAX,
        -PROBE_MAX <= probe_y(source, angle, step_size, s) <= PROBE_MAX,
        small(sx * s),
        small(sy * s),
{
    assert(-((step_size + 1) * end) <= sx * s <= (step_size + 1) * end) by (nonlinear_arith)
        requires
            -step_size - 1 <= sx <= step_size,
            0 <= s < end,
            step_size > 0,
    ;
    assert(-((step_size + 1) * end) <= sy * s <= (step_size + 1) * end) by (nonlinear_arith)
        requires
            -step_size - 1 <= sy <= step_size,
            0 <= s < end,
            step_size > 0,
    ;
}

} // verus!

