//! Projectile trajectories: a multi-bounce piecewise-linear path with
//! cumulative arrival times, and interpolated position queries.

use vstd::prelude::*;
use crate::fx::{ONE, PI, PROBE_MAX, ROT_MAX, abs_spec, div_floor, isqrt, sqrt_spec,
    lemma_div_le, lemma_div_nonneg, lemma_div_in_range};
use crate::trig::atan2_spec;
use crate::vec2::{Vec2, bounded};
use crate::shape::Shape;
use crate::map::{ObstacleField, cast_hit_step, probe_x, probe_y, first_containing, bounce_spec,
    lemma_first_containing_in};
use crate::state::Bullet;

verus! {

/// The fixed projectile speed, in fixed-point units per second.
pub const BULLET_VEL: i64 = 409600;

/// The total travel distance a simulated trajectory may cover.
pub const MAX_DIST: i64 = 2457600;

/// How far one segment's travel time can reach.
pub const SEG_TIME_MAX: i64 = 0x400_0000;

/// How far a cumulative arrival time can reach.
pub const TIME_MAX: i64 = 0x4000_0000_0000;

/// The cumulative arrival times of a vertex list: zero at the first
/// vertex, each later vertex adding its segment's travel time (the integer
/// square root of the squared separation, divided by the projectile speed).
pub open spec fn times_of(bounces: Seq<Vec2>) -> Seq<i64>
    decreases bounces.len(),
{
    if bounces.len() <= 1 {
        seq![0i64]
    } else {
        let prev = times_of(bounces.drop_last());
        let a = bounces[bounces.len() - 2];
        let b = bounces.last();
        prev.push(
            (prev.last() + sqrt_spec((b.x - a.x) * (b.x - a.x) + (b.y - a.y) * (b.y - a.y)) * (
            ONE as int) / (BULLET_VEL as int)) as i64,
        )
    }
}

/// A projectile path: bounce vertices and the cumulative arrival time at
/// each vertex.
#[derive(Clone, Debug)]
pub struct BulletTrajectory {
    pub bounces: Vec<Vec2>,
    pub times: Vec<i64>,
}

impl BulletTrajectory {
    /// At least one vertex; one time per vertex; times start at zero, never
    /// decrease and stay within range; vertices stay within probe range.
    pub open spec fn wf(self) -> bool {
        &&& 1 <= self.bounces@.len() <= 0x10_0000
        &&& self.times@.len() == self.bounces@.len()
        &&& self.times@[0] == 0
        &&& forall|i: int| 0 <= i < self.times@.len() ==> 0 <= #[trigger] self.times@[i]
            <= TIME_MAX
        &&& forall|i: int| 0 < i < self.times@.len() ==> self.times@[i - 1]
            <= #[trigger] self.times@[i]
        &&& forall|i: int|
            0 <= i < self.bounces@.len() ==> bounded(#[trigger] self.bounces@[i],
                PROBE_MAX as int)
    }

    /// Builds the path from its vertices, accumulating each consecutive
    /// segment's travel time.
    pub fn new(bounces: Vec<Vec2>) -> (r: BulletTrajectory)
        requires
            1 <= bounces@.len() <= 0x10_0000,
            forall|i: int|
                0 <= i < bounces@.len() ==> bounded(#[trigger] bounces@[i], PROBE_MAX as int),
        ensures
            r.bounces@ == bounces@,
            r.wf(),
            r.times@ == times_of(bounces@),
    {
        let mut times: Vec<i64> = Vec::new();
        times.push(0);
        proof {
            assert(times@ =~= times_of(bounces@.take(1)));
        }
        let mut prev = bounces[0];
        let mut t_acc: i64 = 0;
        let mut i: usize = 1;
        while i < bounces.len()
            invariant
                1 <= i <= bounces@.len() <= 0x10_0000,
                forall|k: int|
                    0 <= k < bounces@.len() ==> bounded(#[trigger] bounces@[k], PROBE_MAX as int),
                times@.len() == i,
                times@[0] == 0,
                prev == bounces@[i - 1],
                t_acc == times@[i - 1],
                0 <= t_acc <= (i - 1) * SEG_TIME_MAX,
                forall|k: int| 0 <= k < i ==> 0 <= #[trigger] times@[k] <= TIME_MAX,
                forall|k: int| 0 < k < i ==> times@[k - 1] <= #[trigger] times@[k],
                times@ == times_of(bounces@.take(i as int)),
            decreases bounces@.len() - i,
        {
            let b = bounces[i];
            let dx = b.x - prev.x;
            let dy = b.y - prev.y;
            proof {
                assert(0 <= dx * dx <= 0x100_0000_0000_0000) by (nonlinear_arith)
                    requires
                        -2 * PROBE_MAX <= dx <= 2 * PROBE_MAX,
                ;
                assert(0 <= dy * dy <= 0x100_0000_0000_0000) by (nonlinear_arith)
                    requires
                        -2 * PROBE_MAX <= dy <= 2 * PROBE_MAX,
                ;
            }
            let dsq = dx * dx + dy * dy;
            let d = isqrt(dsq);
            proof {
                assert(d <= 0x4000_0000) by (nonlinear_arith)
                    requires
                        d >= 0,
                        d * d <= dsq,
                        dsq <= 0x200_0000_0000_0000,
                ;
                lemma_div_nonneg(d * (ONE as int), BULLET_VEL as int);
                lemma_div_le(d * (ONE as int), BULLET_VEL as int, SEG_TIME_MAX as int);
            }
            let extra = (d * ONE) / BULLET_VEL;
            t_acc = t_acc + extra;
            times.push(t_acc);
            proof {
                let taken = bounces@.take(i as int + 1);
                assert(taken.drop_last() =~= bounces@.take(i as int));
                assert(taken.last() == bounces@[i as int]);
                assert(taken[taken.len() - 2] == bounces@[i as int - 1]);
                assert(times@ =~= times_of(taken));
                assert((i as int) * SEG_TIME_MAX == (i as int - 1) * SEG_TIME_MAX + SEG_TIME_MAX)
                    by (nonlinear_arith);
                assert((i as int) * SEG_TIME_MAX <= 0x10_0000 * SEG_TIME_MAX) by (nonlinear_arith)
                    requires
                        i as int <= 0x10_0000,
                ;
            }
            prev = b;
            i += 1;
        }
        proof {
            assert(bounces@.take(bounces@.len() as int) =~= bounces@);
        }
        BulletTrajectory { bounces, times }
    }
}

/// The first index whose time is at least `t`, or the sequence length when
/// every time is below `t`.
pub open spec fn lower_bound(times: Seq<i64>, t: int) -> int
    decreases times.len(),
{
    if times.len() == 0 {
        0
    } else if times[0] >= t {
        0
    } else {
        1 + lower_bound(times.skip(1), t)
    }
}

/// An index below which every time is under `t`, and at which (if in range)
/// the time reaches `t`, is the lower bound.
proof fn lemma_lower_bound_unique(times: Seq<i64>, t: int, idx: int)
    requires
        0 <= idx <= times.len(),
        forall|j: int| 0 <= j < idx ==> #[trigger] times[j] < t,
        idx < times.len() ==> times[idx] >= t,
    ensures
        lower_bound(times, t) == idx,
    decreases idx,
{
    if idx == 0 {
    } else {
        assert(times[0] < t);
        lemma_lower_bound_unique(times.skip(1), t, idx - 1);
    }
}

/// Adjacent monotonicity extends to any pair of indices.
proof fn lemma_sorted_pair(times: Seq<i64>, i: int, j: int)
    requires
        forall|k: int| 0 < k < times.len() ==> times[k - 1] <= #[trigger] times[k],
        0 <= i <= j < times.len(),
    ensures
        times[i] <= times[j],
    decreases j - i,
{
    if i < j {
        lemma_sorted_pair(times, i, j - 1);
    }
}

/// Binary search for the first index whose time reaches `t`.
fn lower_bound_exec(times: &Vec<i64>, t: i64) -> (r: usize)
    requires
        forall|k: int| 0 < k < times@.len() ==> times@[k - 1] <= #[trigger] times@[k],
    ensures
        r as int == lower_bound(times@, t as int),
        0 <= r <= times@.len(),
        forall|j: int| 0 <= j < r ==> #[trigger] times@[j] < t,
        r < times@.len() ==> times@[r as int] >= t,
{
    let mut lo: usize = 0;
    let mut hi: usize = times.len();
    while lo < hi
        invariant
            0 <= lo <= hi <= times@.len(),
            forall|k: int| 0 < k < times@.len() ==> times@[k - 1] <= #[trigger] times@[k],
            forall|j: int| 0 <= j < lo ==> #[trigger] times@[j] < t,
            hi < times@.len() ==> times@[hi as int] >= t,
        decreases hi - lo,
    {
        let mid = lo + (hi - lo) / 2;
        if times[mid] < t {
            assert forall|j: int| 0 <= j < mid + 1 implies #[trigger] times@[j] < t by {
                lemma_sorted_pair(times@, j, mid as int);
            }
            lo = mid + 1;
        } else {
            hi = mid;
        }
    }
    proof {
        lemma_lower_bound_unique(times@, t as int, lo as int);
    }
    lo
}

/// The interpolation fraction for a query time `t` inside the segment with
/// arrival times `t0 < t1`. The denominator is the reversed time
/// difference, so the fraction is non-positive: within a segment, queried
/// positions run from the segment's first vertex away from the second.
/// This orientation is part of the simulator's contract and must not be
/// "corrected": consumers such as the shot-feasibility check are tuned to
/// exactly this sampling.
pub open spec fn way_of(t0: int, t1: int, t: int) -> int {
    -((t - t0) * (ONE as int) / (t1 - t0))
}

/// One interpolated coordinate.
pub open spec fn interp_x(a: Vec2, b: Vec2, way: int) -> int {
    a.x + (b.x - a.x) * way / (ONE as int)
}

pub open spec fn interp_y(a: Vec2, b: Vec2, way: int) -> int {
    a.y + (b.y - a.y) * way / (ONE as int)
}

/// What a position query returns: the first vertex at or before time zero,
/// an interpolation inside any segment before the last vertex's arrival
/// time, and nothing at or past the last vertex's time.
pub open spec fn position_of_seq(bounces: Seq<Vec2>, times: Seq<i64>, t: int) -> Option<Vec2> {
    let idx = lower_bound(times, t);
    if idx == 0 {
        Some(bounces[0])
    } else if t < times[times.len() - 1] {
        let way = way_of(times[idx - 1] as int, times[idx] as int, t);
        Some(
            Vec2 {
                x: interp_x(bounces[idx - 1], bounces[idx], way) as i64,
                y: interp_y(bounces[idx - 1], bounces[idx], way) as i64,
            },
        )
    } else {
        None
    }
}

/// The same query over a trajectory value.
pub open spec fn position_of(traj: BulletTrajectory, t: int) -> Option<Vec2> {
    position_of_seq(traj.bounces@, traj.times@, t)
}

impl BulletTrajectory {
    /// The position along the path at the given time, linearly interpolated
    /// between bounce vertices; nothing once the last vertex's arrival time
    /// is reached, the simulated horizon.
    pub fn position_in(&self, time: i64) -> (r: Option<Vec2>)
        requires
            self.wf(),
            -TIME_MAX <= time <= TIME_MAX,
        ensures
            r == position_of(*self, time as int),
            r matches Some(p) ==> bounded(p, 3 * PROBE_MAX as int + 1),
    {
        let idx = lower_bound_exec(&self.times, time);
        if idx == 0 {
            Some(self.bounces[0])
        } else if time < self.times[self.times.len() - 1] {
            proof {
                // The query time lies below the last entry, so the lower
                // bound cannot have run past the end.
                if idx == self.times@.len() {
                    assert(self.times@[self.times@.len() - 1] < time);
                }
            }
            let t0 = self.times[idx - 1];
            let t1 = self.times[idx];
            let a = self.bounces[idx - 1];
            let b = self.bounces[idx];
            proof {
                lemma_div_nonneg((time - t0) * (ONE as int), t1 as int - t0);
                lemma_div_le((time - t0) * (ONE as int), t1 as int - t0, ONE as int);
                assert((time - t0) * (ONE as int) <= (ONE as int) * (t1 - t0))
                    by (nonlinear_arith)
                    requires
                        time <= t1,
                        t0 < t1,
                ;
            }
            let w = div_floor((time - t0) * ONE, t1 - t0);
            let way = -w;
            let diff = b.sub(a);
            proof {
                assert(-((2 * PROBE_MAX as int) * ONE) <= diff.x * way <= (2
                    * PROBE_MAX as int) * ONE) by (nonlinear_arith)
                    requires
                        -2 * PROBE_MAX <= diff.x <= 2 * PROBE_MAX,
                        -ONE <= way <= 0,
                ;
                assert(-((2 * PROBE_MAX as int) * ONE) <= diff.y * way <= (2
                    * PROBE_MAX as int) * ONE) by (nonlinear_arith)
                    requires
                        -2 * PROBE_MAX <= diff.y <= 2 * PROBE_MAX,
                        -ONE <= way <= 0,
                ;
                lemma_div_in_range(diff.x * way, ONE as int, 2 * PROBE_MAX as int);
                lemma_div_in_range(diff.y * way, ONE as int, 2 * PROBE_MAX as int);
            }
            let scaled = diff.mul_fx(way);
            Some(a.add(scaled))
        } else {
            None
        }
    }
}

/// The vertices a bounce simulation appends after the start vertex: march
/// from the source along the heading; on a hit, record the hit point,
/// reflect the heading off the struck shape's surface, shrink the budget by
/// the steps spent and continue; stop on an escape, an exhausted budget or
/// when no bounces are left.
pub open spec fn traj_spec(
    shapes: Seq<Shape>,
    source: Vec2,
    angle: int,
    step_size: int,
    budget: int,
    bounces_left: int,
) -> Seq<Vec2>
    decreases bounces_left,
{
    if bounces_left <= 0 {
        Seq::empty()
    } else {
        let h = cast_hit_step(shapes, source, angle, step_size, 10, budget);
        if h >= budget {
            Seq::empty()
        } else {
            let p = Vec2 {
                x: probe_x(source, angle, step_size, h) as i64,
                y: probe_y(source, angle, step_size, h) as i64,
            };
            match first_containing(shapes, p.x as int, p.y as int) {
                Some(s) => seq![p].add(traj_spec(shapes, p, bounce_spec(s, p.x as int,
                    p.y as int, angle), step_size, budget - h, bounces_left - 1)),
                None => seq![p],
            }
        }
    }
}

/// The whole contract of a bounce simulation: a well-formed path whose
/// vertices are exactly the specified walk and whose arrival times are the
/// accumulated segment travel times.
pub open spec fn trajectory_matches(
    t: BulletTrajectory,
    shapes: Seq<Shape>,
    bullet: Bullet,
    step_size: int,
    max_bounces: int,
) -> bool {
    &&& t.wf()
    &&& t.bounces@ == seq![bullet.spec_pos()].add(traj_spec(shapes, bullet.spec_pos(),
        atan2_spec(bullet.spec_vel().y as int, bullet.spec_vel().x as int), step_size, (MAX_DIST
        + step_size - 1) / step_size, max_bounces))
    &&& t.times@ == times_of(t.bounces@)
}

/// `|sx * h| <= (ss + 1) * h` when `|sx| <= ss + 1` and `h >= 0`.
proof fn lemma_step_mul(sx: int, ss: int, h: int)
    requires
        -ss - 1 <= sx <= ss,
        0 <= ss,
        0 <= h,
    ensures
        -((ss + 1) * h) <= sx * h <= (ss + 1) * h,
{
    assert(-((ss + 1) * h) <= sx * h <= (ss + 1) * h) by (nonlinear_arith)
        requires
            -ss - 1 <= sx <= ss,
            0 <= ss,
            0 <= h,
    ;
}

impl ObstacleField {
    /// Simulates a projectile: repeated ray casts, reflecting at each hit,
    /// until the step budget runs out, the walk escapes, or `max_bounces`
    /// reflections have been taken. The start vertex is the projectile's
    /// position; its heading is its velocity's polar angle.
    #[verifier::rlimit(60)]
    pub fn get_bullet_trajectory(&self, bullet: Bullet, step_size: i64, max_bounces: usize) -> (r:
        BulletTrajectory)
        requires
            self.wf(),
            bullet.wf(),
            0 < step_size <= 0x10_0000,
            max_bounces <= 4096,
        ensures
            r.wf(),
            r.bounces@.len() <= max_bounces + 1,
            r.bounces@[0] == bullet.spec_pos(),
            trajectory_matches(r, self.shapes@, bullet, step_size as int, max_bounces as int),
    {
        let mut source = bullet.pos();
        let mut angle = bullet.vel().angle();
        let mut bounces: Vec<Vec2> = Vec::new();
        bounces.push(source);
        proof {
            vstd::arithmetic::div_mod::lemma_div_nonincreasing((MAX_DIST + step_size - 1) as int,
                step_size as int);
            vstd::arithmetic::div_mod::lemma_div_pos_is_pos((MAX_DIST + step_size - 1) as int,
                step_size as int);
            vstd::arithmetic::div_mod::lemma_fundamental_div_mod(
                (MAX_DIST + step_size - 1) as int, step_size as int);
            vstd::arithmetic::div_mod::lemma_mod_bound((MAX_DIST + step_size - 1) as int,
                step_size as int);
        }
        let q = (MAX_DIST + step_size - 1) / step_size;
        proof {
            // The whole march budget, in probe units, stays small: the
            // quotient times the step size is at most the dividend.
            assert(step_size as int * (q as int) <= MAX_DIST + step_size - 1);
            assert((step_size as int + 1) * (q as int) == step_size as int * (q as int)
                + q as int) by (nonlinear_arith);
        }
        let mut step_cnt: usize = q as usize;
        let ghost q0 = q as int;
        proof {
            assert(q0 == (MAX_DIST + step_size - 1) as int / step_size as int);
        }
        let mut b: usize = 0;
        while b < max_bounces
            invariant
                self.wf(),
                bullet.wf(),
                0 <= b <= max_bounces <= 4096,
                0 < step_size <= 0x10_0000,
                q0 == (MAX_DIST + step_size - 1) as int / step_size as int,
                1 <= bounces@.len() <= b + 1,
                bounces@[0] == bullet.spec_pos(),
                forall|i: int|
                    0 <= i < bounces@.len() ==> bounded(#[trigger] bounces@[i], PROBE_MAX as int),
                0 <= step_cnt <= q0,
                abs_spec(source.x as int) + (step_size as int + 1) * (step_cnt as int)
                    <= PROBE_MAX,
                abs_spec(source.y as int) + (step_size as int + 1) * (step_cnt as int)
                    <= PROBE_MAX,
                abs_spec(angle as int) <= PI + (b as int) * (2 * ((ROT_MAX + PI) as int) + 2 * (
                PI as int)),
                seq![bullet.spec_pos()].add(traj_spec(self.shapes@, bullet.spec_pos(),
                    atan2_spec(bullet.spec_vel().y as int, bullet.spec_vel().x as int),
                    step_size as int, q0, max_bounces as int)) == bounces@.add(traj_spec(
                    self.shapes@, source, angle as int, step_size as int, step_cnt as int,
                    max_bounces - b)),
            decreases max_bounces - b,
        {
            proof {
                assert(abs_spec(angle as int) <= PI + 4096 * (2 * ((ROT_MAX + PI) as int) + 2 * (
                PI as int))) by (nonlinear_arith)
                    requires
                        abs_spec(angle as int) <= PI + (b as int) * (2 * ((ROT_MAX + PI) as int)
                            + 2 * (PI as int)),
                        0 <= b as int <= 4096,
                ;
            }
            let ghost old_bounces = bounces@;
            let ghost old_cnt = step_cnt as int;
            let ghost old_angle = angle as int;
            let ghost old_source = source;
            let ghost rest = traj_spec(self.shapes@, old_source, old_angle, step_size as int,
                old_cnt, max_bounces - b);
            let (shape_opt, pos, steps) = Self::single_cast(source, angle, step_size, 10,
                step_cnt, &self.shapes);
            let ghost h = cast_hit_step(self.shapes@, old_source, old_angle, step_size as int,
                10, old_cnt);
            if steps >= step_cnt {
                proof {
                    assert(h >= old_cnt);
                    assert(rest =~= Seq::<Vec2>::empty());
                    assert(bounces@.add(rest) =~= bounces@);
                    assert(seq![bullet.spec_pos()].add(traj_spec(self.shapes@,
                        bullet.spec_pos(), atan2_spec(bullet.spec_vel().y as int,
                        bullet.spec_vel().x as int), step_size as int, q0, max_bounces as int))
                        == bounces@);
                }
                return BulletTrajectory::new(bounces);
            }
            proof {
                crate::map::lemma_step_bounds(old_angle, step_size as int);
                lemma_step_mul(crate::map::step_vec_x(old_angle, step_size as int),
                    step_size as int, h);
                lemma_step_mul(crate::map::step_vec_y(old_angle, step_size as int),
                    step_size as int, h);
                assert((step_size as int + 1) * old_cnt == (step_size as int + 1) * h + (
                step_size as int + 1) * (old_cnt - h)) by (nonlinear_arith);
            }
            step_cnt = step_cnt - steps;
            bounces.push(pos);
            let ghost p_spec = Vec2 {
                x: probe_x(old_source, old_angle, step_size as int, h) as i64,
                y: probe_y(old_source, old_angle, step_size as int, h) as i64,
            };
            proof {
                assert(pos == p_spec);
                assert(bounces@ =~= old_bounces.add(seq![pos]));
            }
            // A hit inside the budget always carries the struck shape.
            let shape = shape_opt.unwrap();
            proof {
                lemma_first_containing_in(self.shapes@, pos.x as int, pos.y as int);
                let ghost rest2 = traj_spec(self.shapes@, p_spec, bounce_spec(shape,
                    p_spec.x as int, p_spec.y as int, old_angle), step_size as int, old_cnt - h,
                    max_bounces - b - 1);
                assert(rest =~= seq![p_spec].add(rest2));
                assert(old_bounces.add(seq![p_spec].add(rest2)) =~= old_bounces.add(
                    seq![p_spec]).add(rest2));
            }
            source = pos;
            angle = Self::get_bounce(pos, angle, shape);
            proof {
                assert((b as int + 1) * (2 * ((ROT_MAX + PI) as int) + 2 * (PI as int)) == (
                b as int) * (2 * ((ROT_MAX + PI) as int) + 2 * (PI as int)) + (2 * ((ROT_MAX
                    + PI) as int) + 2 * (PI as int))) by (nonlinear_arith);
            }
            b += 1;
        }
        proof {
            if b == max_bounces {
                assert(traj_spec(self.shapes@, source, angle as int, step_size as int,
                    step_cnt as int, 0) =~= Seq::<Vec2>::empty());
                assert(bounces@.add(Seq::<Vec2>::empty()) =~= bounces@);
            }
        }
        BulletTrajectory::new(bounces)
    }
}


/// The lower bound's defining properties, recovered from its definition.
proof fn lemma_lower_bound_props(times: Seq<i64>, t: int)
    ensures
        0 <= lower_bound(times, t) <= times.len(),
        forall|j: int| 0 <= j < lower_bound(times, t) ==> #[trigger] times[j] < t,
        lower_bound(times, t) < times.len() ==> times[lower_bound(times, t)] >= t,
    decreases times.len(),
{
    if times.len() > 0 && times[0] < t {
        lemma_lower_bound_props(times.skip(1), t);
        let lb = lower_bound(times, t);
        assert forall|j: int| 0 <= j < lb implies #[trigger] times[j] < t by {
            if j > 0 {
                assert(times.skip(1)[j - 1] < t);
            }
        }
    }
}

/// Law: a position query at time zero returns the trajectory's first
/// vertex.
pub proof fn lemma_position_at_zero(traj: BulletTrajectory)
    requires
        traj.wf(),
    ensures
        position_of(traj, 0) == Some(traj.bounces@[0]),
{
    assert(traj.times@[0] >= 0);
}

/// Law: with no bounces allowed, a simulated trajectory never holds more
/// than two vertices.
pub proof fn lemma_no_bounce_short(
    t: BulletTrajectory,
    shapes: Seq<Shape>,
    bullet: Bullet,
    step_size: int,
)
    requires
        trajectory_matches(t, shapes, bullet, step_size, 0),
    ensures
        t.bounces@.len() <= 2,
{
    assert(traj_spec(shapes, bullet.spec_pos(), atan2_spec(bullet.spec_vel().y as int,
        bullet.spec_vel().x as int), step_size, (MAX_DIST + step_size - 1) / step_size, 0)
        =~= Seq::<Vec2>::empty());
}

/// Law: between two query times that fall in the same segment, the
/// returned position advances monotonically along one fixed direction, so
/// consecutive queries never teleport back and forth. The recorded
/// interpolation runs from the segment's first vertex away from the
/// second (the fraction's denominator is the reversed time difference),
/// so that is the direction of travel.
pub proof fn lemma_position_monotone(traj: BulletTrajectory, t1: int, t2: int)
    requires
        traj.wf(),
        t1 <= t2,
        lower_bound(traj.times@, t1) == lower_bound(traj.times@, t2),
        0 < lower_bound(traj.times@, t1),
        t2 < traj.times@[traj.times@.len() - 1],
    ensures
        position_of(traj, t1) is Some,
        position_of(traj, t2) is Some,
        ({
            let idx = lower_bound(traj.times@, t1);
            let a = traj.bounces@[idx - 1];
            let b = traj.bounces@[idx];
            let p1 = position_of(traj, t1)->Some_0;
            let p2 = position_of(traj, t2)->Some_0;
            &&& (b.x >= a.x ==> p2.x <= p1.x)
            &&& (b.x <= a.x ==> p2.x >= p1.x)
            &&& (b.y >= a.y ==> p2.y <= p1.y)
            &&& (b.y <= a.y ==> p2.y >= p1.y)
        }),
{
    let idx = lower_bound(traj.times@, t1);
    lemma_lower_bound_props(traj.times@, t1);
    lemma_lower_bound_props(traj.times@, t2);
    if idx == traj.times@.len() {
        assert(traj.times@[traj.times@.len() - 1] < t2);
    }
    let t0 = traj.times@[idx - 1] as int;
    let tseg = traj.times@[idx] as int;
    assert(t0 < t1);
    assert(t2 <= tseg);
    let a = traj.bounces@[idx - 1];
    let b = traj.bounces@[idx];
    let w1 = way_of(t0, tseg, t1);
    let w2 = way_of(t0, tseg, t2);
    assert((t1 - t0) * (ONE as int) <= (t2 - t0) * (ONE as int)) by (nonlinear_arith)
        requires
            t1 <= t2,
    ;
    vstd::arithmetic::div_mod::lemma_div_is_ordered((t1 - t0) * (ONE as int), (t2 - t0) * (
    ONE as int), tseg - t0);
    assert(w2 <= w1);
    lemma_way_in_range(t0, tseg, t1);
    lemma_way_in_range(t0, tseg, t2);
    lemma_interp_in_range(a.x as int, b.x as int, w1);
    lemma_interp_in_range(a.x as int, b.x as int, w2);
    lemma_interp_in_range(a.y as int, b.y as int, w1);
    lemma_interp_in_range(a.y as int, b.y as int, w2);
    lemma_interp_monotone(b.x as int - a.x as int, w2, w1);
    lemma_interp_monotone(b.y as int - a.y as int, w2, w1);
}

/// The interpolation fraction of a time inside the segment lies in
/// `[-ONE, 0]`.
proof fn lemma_way_in_range(t0: int, tseg: int, t: int)
    requires
        t0 < t <= tseg,
    ensures
        -ONE <= way_of(t0, tseg, t) <= 0,
{
    lemma_div_nonneg((t - t0) * (ONE as int), tseg - t0);
    assert((t - t0) * (ONE as int) <= (ONE as int) * (tseg - t0)) by (nonlinear_arith)
        requires
            t0 < t <= tseg,
    ;
    lemma_div_le((t - t0) * (ONE as int), tseg - t0, ONE as int);
}

/// An interpolated coordinate between probe-range endpoints stays within
/// the extended range, so its fixed-width form is exact.
proof fn lemma_interp_in_range(ax: int, bx: int, w: int)
    requires
        -PROBE_MAX <= ax <= PROBE_MAX,
        -PROBE_MAX <= bx <= PROBE_MAX,
        -ONE <= w <= 0,
    ensures
        -3 * (PROBE_MAX as int) <= ax + (bx - ax) * w / (ONE as int) <= 3 * (PROBE_MAX as int),
{
    assert(-((2 * PROBE_MAX as int) * ONE) <= (bx - ax) * w <= (2 * PROBE_MAX as int) * ONE)
        by (nonlinear_arith)
        requires
            -2 * PROBE_MAX <= bx - ax <= 2 * PROBE_MAX,
            -ONE <= w <= 0,
    ;
    lemma_div_in_range((bx - ax) * w, ONE as int, 2 * PROBE_MAX as int);
}

/// Scaling two ordered fractions by the same offset keeps the floor-divided
/// products ordered in the offset's direction.
proof fn lemma_interp_monotone(d: int, w2: int, w1: int)
    requires
        w2 <= w1,
    ensures
        d >= 0 ==> d * w2 / (ONE as int) <= d * w1 / (ONE as int),
        d <= 0 ==> d * w2 / (ONE as int) >= d * w1 / (ONE as int),
{
    if d >= 0 {
        assert(d * w2 <= d * w1) by (nonlinear_arith)
            requires
                d >= 0,
                w2 <= w1,
        ;
        vstd::arithmetic::div_mod::lemma_div_is_ordered(d * w2, d * w1, ONE as int);
    } else {
        assert(d * w1 <= d * w2) by (nonlinear_arith)
            requires
                d <= 0,
                w2 <= w1,
        ;
        vstd::arithmetic::div_mod::lemma_div_is_ordered(d * w1, d * w2, ONE as int);
    }
}

} // verus!
