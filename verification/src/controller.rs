//! The danger-field controller: scores a ring of candidate headings by a
//! composite danger heuristic and turns the safest candidate into one
//! movement/turn/fire command.

use vstd::prelude::*;
use crate::fx::{ONE, PI, HALF_PI, TWO_PI, ROT_MAX, small, abs_spec, abs_fx, div_floor,
    sqrt_spec, lemma_div_le, lemma_div_nonneg, lemma_div_in_range};
use crate::trig::{sin_spec, cos_spec, atan2_spec};
use crate::vec2::{Vec2, is_sqrt};
use crate::shape::{Shape, shape_contains};
use crate::map::{ObstacleField, field_contains, cast_point_x, cast_point_y, lemma_cast_point};
use crate::state::{State, BotData, Bullet};
use crate::env::{Env, Team};
use crate::trajectory::{position_of_seq, times_of, traj_spec, MAX_DIST};

verus! {

/// How many candidate headings the ring holds.
pub const ANGLE_CNT: usize = 360;

/// How far ahead of the agent each candidate position lies.
pub const PROJECT_DIST: i64 = 204800;

/// Half extents of a vehicle's bounding box.
pub const BOT_HALF_W: i64 = 40761;

pub const BOT_HALF_H: i64 = 63831;

/// The danger weights, as fixed-point numerators: projectile proximity
/// (50), gun exposure (1), wall clearance (1), standoff preference (0.1,
/// via a tenfold denominator), shot opportunity (100) and turn cost (10),
/// each scaled so that its denominator's units cancel.
pub const W_BULLET_NUM: i64 = 52_428_800;

pub const W_GUN_NUM: i64 = 1_073_741_824;

pub const W_WALL_NUM: i64 = 1_048_576;

pub const W_STANDOFF_NUM: i64 = 1_073_741_824;

pub const W_SHOT_NUM: i64 = 104_857_600;

pub const W_TURN_NUM: i64 = 10_737_418_240;

/// One squared fixed-point unit.
pub const FX_SQ: i64 = 1_048_576;

/// One command for the vehicle: move sign, turn sign, fire flag.
#[derive(Debug, Copy, Clone, PartialEq, Eq, Structural)]
pub struct OutputAction {
    pub m: i32,
    pub r: i32,
    pub f: i32,
}

impl OutputAction {
    pub fn new() -> (r: OutputAction)
        ensures
            r.m == 0,
            r.r == 0,
            r.f == 0,
    {
        OutputAction { m: 0, r: 0, f: 0 }
    }
}

/// The heading of ring candidate `index`: its share of a full turn.
pub open spec fn ring_angle(index: int) -> int {
    index * (TWO_PI as int) / (ANGLE_CNT as int)
}

/// An angle wrapped into `(-PI, PI]`.
pub open spec fn rel_spec(a: int) -> int {
    PI - ((PI - a) % (TWO_PI as int))
}

/// The precomputed world offset of ring candidate `index`.
pub open spec fn ring_offset(index: int) -> Vec2 {
    Vec2 {
        x: (cos_spec(ring_angle(index)) * PROJECT_DIST / (ONE as int)) as i64,
        y: (sin_spec(ring_angle(index)) * PROJECT_DIST / (ONE as int)) as i64,
    }
}

/// A vehicle's bounding box at its pose.
pub open spec fn vehicle_shape(b: BotData) -> Shape {
    Shape::RotRect { pos: b.pos, w_h: Vec2 { x: BOT_HALF_W, y: BOT_HALF_H }, rot: b.r }
}

/// The probe projectile a shot-feasibility check simulates: fired from the
/// agent's position along the candidate heading at the bullet speed.
pub open spec fn shot_bullet(b: BotData, angle: int) -> Bullet {
    Bullet {
        pos: b.pos,
        vel: Vec2 { x: (cos_spec(angle) * 400) as i64, y: (sin_spec(angle) * 400) as i64 },
    }
}

/// The sampled walk of a shot-feasibility check over a simulated
/// trajectory: samples the path at a fixed time grid; arms once a sample
/// leaves the shooter's own box; rejects if an armed sample re-enters it;
/// accepts as soon as a sample lands in the opponent's box; rejects when
/// the path is exhausted or the samples run out.
pub open spec fn shot_scan(
    bounces: Seq<Vec2>,
    times: Seq<i64>,
    own: Shape,
    enemy: Shape,
    i: int,
    started: bool,
) -> bool
    decreases 600 - i,
{
    if i < 0 || i >= 600 {
        false
    } else {
        match position_of_seq(bounces, times, i * (ONE as int) / 100) {
            Some(p) => {
                let own_in = shape_contains(own, p.x as int, p.y as int);
                if own_in && started {
                    false
                } else if shape_contains(enemy, p.x as int, p.y as int) {
                    true
                } else {
                    shot_scan(bounces, times, own, enemy, i + 1, started || !own_in)
                }
            },
            None => false,
        }
    }
}

/// Whether ring candidate `index` lands outside every obstacle. Opaque:
/// consumers compare its applications, only the scoring loop relates it to
/// the field test.
#[verifier::opaque]
pub open spec fn candidate_free(shapes: Seq<Shape>, state: State, index: int) -> bool {
    !field_contains(shapes, state.bot.pos.x + ring_offset(index).x, state.bot.pos.y
        + ring_offset(index).y)
}

/// Some collision-free candidate exists.
pub open spec fn any_candidate_free(shapes: Seq<Shape>, state: State) -> bool {
    exists|i: int| 0 <= i < ANGLE_CNT && #[trigger] candidate_free(shapes, state, i)
}

/// The dodge flag: a projectile is tracked and some candidate is free.
pub open spec fn dodge_spec(
    shapes: Seq<Shape>,
    state: State,
    bullet_0: Option<Bullet>,
    bullet_1: Option<Bullet>,
) -> bool {
    (bullet_0 is Some || bullet_1 is Some) && any_candidate_free(shapes, state)
}

/// The vertex list of the feasibility simulation's trajectory for a probe
/// projectile: unit step, one hundred bounces allowed.
pub open spec fn shot_path(shapes: Seq<Shape>, b: Bullet) -> Seq<Vec2> {
    seq![b.spec_pos()].add(traj_spec(shapes, b.spec_pos(), atan2_spec(b.spec_vel().y as int,
        b.spec_vel().x as int), ONE as int, (MAX_DIST + ONE - 1) as int / (ONE as int), 100))
}

/// Whether the feasibility walk accepts a shot along candidate `index`:
/// the sampled scan over the simulated path, a closed function of the
/// field and the snapshot. Opaque: consumers compare its applications,
/// only the feasibility check itself reasons about the walk.
#[verifier::opaque]
pub open spec fn shot_ok(shapes: Seq<Shape>, state: State, index: int) -> bool {
    let path = shot_path(shapes, shot_bullet(state.bot, ring_angle(index)));
    shot_scan(path, times_of(path), vehicle_shape(state.bot), vehicle_shape(state.opp), 0, false)
}

/// The shoot flag: no projectile is tracked and some collision-free
/// candidate's shot is accepted.
pub open spec fn shoot_spec(
    shapes: Seq<Shape>,
    state: State,
    bullet_0: Option<Bullet>,
    bullet_1: Option<Bullet>,
) -> bool {
    bullet_0 is None && bullet_1 is None && exists|i: int|
        0 <= i < ANGLE_CNT && #[trigger] candidate_free(shapes, state, i) && shot_ok(shapes,
            state, i)
}

/// The composite danger score of a candidate heading: proximity to each
/// tracked projectile, squared angular exposure to the opponent's gun,
/// clearance of the forward ray cast, a standoff bonus around the
/// preferred separation, a shot-opportunity bonus when no projectile is
/// tracked and the feasibility walk accepts, and a turn-cost bonus toward
/// the agent's current heading. Lower is safer. Opaque: consumers compare
/// scores, only the scoring function itself reasons about the terms.
#[verifier::opaque]
pub open spec fn danger_spec(
    shapes: Seq<Shape>,
    state: State,
    bullet_0: Option<Bullet>,
    bullet_1: Option<Bullet>,
    index: int,
) -> int {
    let px = state.bot.pos.x + ring_offset(index).x;
    let py = state.bot.pos.y + ring_offset(index).y;
    let heading = state.bot.r as int;
    let t_b0: int = match bullet_0 {
        Some(b) => (W_BULLET_NUM as int) / (ONE + sqrt_spec((b.pos.x - px) * (b.pos.x - px) + (b.pos.y
            - py) * (b.pos.y - py))),
        None => 0,
    };
    let t_b1: int = match bullet_1 {
        Some(b) => (W_BULLET_NUM as int) / (ONE + sqrt_spec((b.pos.x - px) * (b.pos.x - px) + (b.pos.y
            - py) * (b.pos.y - py))),
        None => 0,
    };
    let af = rel_spec(atan2_spec(py - state.opp.pos.y, px - state.opp.pos.x) - state.opp.r);
    let t_gun = (W_GUN_NUM as int) / (FX_SQ + af * af);
    let rcx = cast_point_x(shapes, state.bot.pos, ring_angle(index), ONE as int, 0, 200);
    let rcy = cast_point_y(shapes, state.bot.pos, ring_angle(index), ONE as int, 0, 200);
    let t_wall = (W_WALL_NUM as int) / (ONE + sqrt_spec((px - rcx) * (px - rcx) + (py - rcy) * (py
        - rcy)));
    let odist = sqrt_spec((px - state.opp.pos.x) * (px - state.opp.pos.x) + (py
        - state.opp.pos.y) * (py - state.opp.pos.y));
    let dd = odist - 409600;
    let t_standoff = (W_STANDOFF_NUM as int) / (10 * (FX_SQ + dd * dd / (FX_SQ as int)));
    let t_shot: int = if bullet_0 is None && bullet_1 is None && shot_ok(shapes, state, index) {
        (W_SHOT_NUM as int) / (ONE + abs_spec(ring_angle(index) - heading))
    } else {
        0
    };
    let rel = rel_spec(ring_angle(index) - heading);
    let t_turn = (W_TURN_NUM as int) / (FX_SQ + rel * rel);
    t_b0 + t_b1 + t_gun + t_wall - t_standoff - t_shot - t_turn
}

/// The winning candidate: collision-free, of minimal danger among the free
/// candidates, and the earliest index attaining that minimum.
pub open spec fn best_candidate(
    shapes: Seq<Shape>,
    state: State,
    bullet_0: Option<Bullet>,
    bullet_1: Option<Bullet>,
    t: int,
) -> bool {
    &&& 0 <= t < ANGLE_CNT
    &&& candidate_free(shapes, state, t)
    &&& forall|j: int|
        0 <= j < ANGLE_CNT && #[trigger] candidate_free(shapes, state, j) ==> danger_spec(
            shapes, state, bullet_0, bullet_1, j) >= danger_spec(shapes, state, bullet_0,
            bullet_1, t)
    &&& forall|j: int|
        0 <= j < t && #[trigger] candidate_free(shapes, state, j) ==> danger_spec(shapes, state,
            bullet_0, bullet_1, j) > danger_spec(shapes, state, bullet_0, bullet_1, t)
}

/// Law: the winning candidate is unique. Minimality together with the
/// earliest-index tie-break pins one index, so a contract that promises
/// the command for some best candidate promises it for exactly one.
pub proof fn lemma_best_candidate_unique(
    shapes: Seq<Shape>,
    state: State,
    bullet_0: Option<Bullet>,
    bullet_1: Option<Bullet>,
    t1: int,
    t2: int,
)
    requires
        best_candidate(shapes, state, bullet_0, bullet_1, t1),
        best_candidate(shapes, state, bullet_0, bullet_1, t2),
    ensures
        t1 == t2,
{
    if t1 < t2 {
        assert(danger_spec(shapes, state, bullet_0, bullet_1, t1) > danger_spec(shapes, state,
            bullet_0, bullet_1, t2));
        assert(danger_spec(shapes, state, bullet_0, bullet_1, t2) >= danger_spec(shapes, state,
            bullet_0, bullet_1, t1));
    }
    if t2 < t1 {
        assert(danger_spec(shapes, state, bullet_0, bullet_1, t2) > danger_spec(shapes, state,
            bullet_0, bullet_1, t1));
        assert(danger_spec(shapes, state, bullet_0, bullet_1, t1) >= danger_spec(shapes, state,
            bullet_0, bullet_1, t2));
    }
}

/// The wire form of one synthesized command: the turn sign is negated on
/// the wire, and the fire flag becomes an integer.
pub open spec fn out_of(a: (int, int, bool)) -> OutputAction {
    OutputAction {
        m: a.0 as i32,
        r: (-a.1) as i32,
        f: if a.2 {
            1 as i32
        } else {
            0 as i32
        },
    }
}

/// What the output synthesis makes of a winning candidate: the shortest
/// signed turn toward it (folded by half a circle while dodging, so the
/// vehicle backs in), a fire flag gated by the turn tolerance and
/// readiness, and a unit move/turn command. Opaque: consumers carry its
/// applications, only the synthesis function relates it to the arithmetic.
#[verifier::opaque]
pub open spec fn synth_spec(
    target: int,
    dodge: bool,
    shoot: bool,
    heading: int,
    can_fire: bool,
) -> (int, int, bool) {
    let t0 = rel_spec(-ring_angle(target) - heading);
    let fold = dodge && abs_spec(t0) > HALF_PI;
    let md: int = if fold {
        -1
    } else {
        1
    };
    let t1 = if fold {
        if t0 > HALF_PI {
            t0 - PI
        } else {
            t0 + PI
        }
    } else {
        t0
    };
    let fire = abs_spec(t1) < ring_angle(5) && shoot && can_fire;
    let turn: int = if abs_spec(t1) < ring_angle(5) || fire {
        0
    } else if t1 > 0 {
        1
    } else {
        -1
    };
    (md, turn, fire)
}

/// The danger-minimizing heading selector: a fixed ring of candidate
/// offsets around the agent and the obstacle field they are tested against.
pub struct MinimumDangerController {
    pub angles: Vec<Vec2>,
    pub map: ObstacleField,
}

impl MinimumDangerController {
    /// The ring holds one correctly precomputed offset per candidate.
    pub open spec fn wf(self) -> bool {
        &&& self.angles@.len() == ANGLE_CNT
        &&& forall|i: int| 0 <= i < ANGLE_CNT ==> #[trigger] self.angles@[i] == ring_offset(i)
        &&& self.map.wf()
    }

    /// Precomputes the candidate ring for the given obstacle field.
    pub fn new(map: ObstacleField) -> (r: MinimumDangerController)
        requires
            map.wf(),
        ensures
            r.wf(),
            r.map == map,
    {
        let mut angles: Vec<Vec2> = Vec::new();
        let mut i: usize = 0;
        while i < ANGLE_CNT
            invariant
                0 <= i <= ANGLE_CNT,
                angles@.len() == i,
                forall|k: int| 0 <= k < i ==> #[trigger] angles@[k] == ring_offset(k),
            decreases ANGLE_CNT - i,
        {
            let a = Self::angle(i);
            let dir = Vec2::from_angle(a);
            proof {
                assert(small(dir.x * PROJECT_DIST) && small(dir.y * PROJECT_DIST))
                    by (nonlinear_arith)
                    requires
                        -ONE <= dir.x <= ONE,
                        -ONE <= dir.y <= ONE,
                ;
            }
            let off = dir.mul_fx(PROJECT_DIST);
            angles.push(off);
            i += 1;
        }
        MinimumDangerController { angles, map }
    }

    /// The heading of ring index `index`.
    pub fn angle(index: usize) -> (r: i64)
        requires
            index <= 0x10_0000,
        ensures
            r == ring_angle(index as int),
            0 <= r <= 18 * index as int,
            index < ANGLE_CNT ==> r < TWO_PI,
    {
        proof {
            lemma_div_nonneg(index as int * (TWO_PI as int), ANGLE_CNT as int);
            assert(index as int * (TWO_PI as int) <= (18 * index as int) * (ANGLE_CNT as int))
                by (nonlinear_arith)
                requires
                    index >= 0,
            ;
            lemma_div_le(index as int * (TWO_PI as int), ANGLE_CNT as int, 18 * index as int);
            if index < ANGLE_CNT {
                assert(index as int * (TWO_PI as int) <= (TWO_PI as int - 1) * (
                ANGLE_CNT as int)) by (nonlinear_arith)
                    requires
                        0 <= index as int <= ANGLE_CNT - 1,
                ;
                lemma_div_le(index as int * (TWO_PI as int), ANGLE_CNT as int, TWO_PI as int
                    - 1);
            }
        }
        ((index as i64) * TWO_PI) / (ANGLE_CNT as i64)
    }

    /// Wraps an angle into `(-PI, PI]`, preserving it modulo a full turn.
    pub fn relative_angle(angle: i64) -> (r: i64)
        requires
            -0x1000_0000_0000_0000 <= angle <= 0x1000_0000_0000_0000,
        ensures
            r == rel_spec(angle as int),
            -PI < r <= PI,
    {
        let w = div_floor(PI - angle, TWO_PI);
        proof {
            vstd::arithmetic::div_mod::lemma_fundamental_div_mod(PI - angle as int,
                TWO_PI as int);
            vstd::arithmetic::div_mod::lemma_mod_bound(PI - angle as int, TWO_PI as int);
        }
        PI - (PI - angle - w * TWO_PI)
    }

    /// Whether a shot fired from the agent's position along `angle` would
    /// strike the opponent's box before re-striking the agent's own box,
    /// over a bounce-aware simulated trajectory.
    pub fn bullet_check(&self, angle: i64, state: State) -> (r: bool)
        requires
            self.wf(),
            state.wf(),
            small(angle as int),
        ensures
            r == ({
                let path = shot_path(self.map.shapes@, shot_bullet(state.bot, angle as int));
                shot_scan(path, times_of(path), vehicle_shape(state.bot),
                    vehicle_shape(state.opp), 0, false)
            }),
    {
        let own = Shape::RotRect {
            pos: state.bot.pos,
            w_h: Vec2::new(BOT_HALF_W, BOT_HALF_H),
            rot: state.bot.r,
        };
        let enemy = Shape::RotRect {
            pos: state.opp.pos,
            w_h: Vec2::new(BOT_HALF_W, BOT_HALF_H),
            rot: state.opp.r,
        };
        let cos_sin = Vec2::from_angle(angle);
        let bullet = Bullet::new(state.bot.pos.x, state.bot.pos.y, cos_sin.x * 400, cos_sin.y
            * 400);
        let trajectory = self.map.get_bullet_trajectory(bullet, ONE, 100);
        proof {
            assert(own == vehicle_shape(state.bot));
            assert(enemy == vehicle_shape(state.opp));
            assert(bullet == shot_bullet(state.bot, angle as int));
            assert(trajectory.bounces@ == shot_path(self.map.shapes@, shot_bullet(state.bot,
                angle as int)));
        }
        let mut start = false;
        let mut i: usize = 0;
        while i < 600
            invariant
                0 <= i <= 600,
                trajectory.wf(),
                own.wf(),
                enemy.wf(),
                own == vehicle_shape(state.bot),
                enemy == vehicle_shape(state.opp),
                trajectory.bounces@ == shot_path(self.map.shapes@, shot_bullet(state.bot,
                    angle as int)),
                trajectory.times@ == times_of(trajectory.bounces@),
                shot_scan(trajectory.bounces@, trajectory.times@, own, enemy, 0, false)
                    == shot_scan(trajectory.bounces@, trajectory.times@, own, enemy, i as int,
                    start),
            decreases 600 - i,
        {
            let time = ((i as i64) * ONE) / 100;
            proof {
                lemma_div_nonneg(i as int * (ONE as int), 100);
                lemma_div_le(i as int * (ONE as int), 100, 0x10_0000);
                assert(i as int * (ONE as int) <= 0x10_0000 * 100) by (nonlinear_arith)
                    requires
                        0 <= i <= 600,
                ;
            }
            let pos = trajectory.position_in(time);
            if let Some(p) = pos {
                let own_in = own.intersects(p);
                if own_in && start {
                    return false;
                }
                if enemy.intersects(p) {
                    return true;
                }
                if !own_in {
                    start = true;
                }
            } else {
                return false;
            }
            i += 1;
        }
        false
    }
}


/// A non-negative fraction: `num / den`, at most `num`.
fn pos_frac(num: i64, den: i64) -> (r: i64)
    requires
        0 <= num,
        1 <= den,
    ensures
        r == num as int / den as int,
        0 <= r <= num,
{
    proof {
        lemma_div_nonneg(num as int, den as int);
        assert(num as int <= num as int * den as int) by (nonlinear_arith)
            requires
                num >= 0,
                den >= 1,
        ;
        lemma_div_le(num as int, den as int, num as int);
    }
    num / den
}

/// The offsets of the candidate ring stay within the lookahead distance.
proof fn lemma_ring_offset_bounds(i: int)
    ensures
        -PROJECT_DIST <= ring_offset(i).x <= PROJECT_DIST,
        -PROJECT_DIST <= ring_offset(i).y <= PROJECT_DIST,
        ring_offset(i).x as int == cos_spec(ring_angle(i)) * PROJECT_DIST / (ONE as int),
        ring_offset(i).y as int == sin_spec(ring_angle(i)) * PROJECT_DIST / (ONE as int),
{
    crate::trig::lemma_sin_cos_bounds(ring_angle(i));
    let c = cos_spec(ring_angle(i));
    let sn = sin_spec(ring_angle(i));
    assert(-(PROJECT_DIST as int * ONE) <= c * PROJECT_DIST <= PROJECT_DIST as int * ONE)
        by (nonlinear_arith)
        requires
            -ONE <= c <= ONE,
    ;
    assert(-(PROJECT_DIST as int * ONE) <= sn * PROJECT_DIST <= PROJECT_DIST as int * ONE)
        by (nonlinear_arith)
        requires
            -ONE <= sn <= ONE,
    ;
    lemma_div_in_range(c * PROJECT_DIST, ONE as int, PROJECT_DIST as int);
    lemma_div_in_range(sn * PROJECT_DIST, ONE as int, PROJECT_DIST as int);
}

impl MinimumDangerController {
    /// Computes one candidate's danger score and whether its shot was
    /// accepted by the feasibility walk. The shot check runs only while no
    /// projectile is tracked: a tracked projectile raises the dodge flag
    /// before any free candidate is scored, which suppresses the check.
    #[verifier::rlimit(100)]
    fn candidate_danger(&self, index: usize, state: State, bullet_0: Option<Bullet>, bullet_1:
        Option<Bullet>) -> (r: (i64, bool))
        requires
            self.wf(),
            state.wf(),
            index < ANGLE_CNT,
            bullet_0 matches Some(b) ==> b.wf(),
            bullet_1 matches Some(b) ==> b.wf(),
        ensures
            r.0 == danger_spec(self.map.shapes@, state, bullet_0, bullet_1, index as int),
            r.1 == (bullet_0 is None && bullet_1 is None && shot_ok(self.map.shapes@, state,
                index as int)),
            -0x10_0000_0000 <= r.0 <= 0x10_0000_0000,
    {
        proof {
            reveal(danger_spec);
            reveal(shot_ok);
        }
        let ghost shapes = self.map.shapes@;
        let offset = self.angles[index];
        proof {
            lemma_ring_offset_bounds(index as int);
        }
        let pos = state.bot.pos.add(offset);
        let t_b0 = match bullet_0 {
            Some(b_0) => {
                let diff = b_0.pos().sub(pos);
                let dist = diff.magnitude();
                proof {
                    lemma_dist_small(diff.x as int, diff.y as int, dist as int);
                }
                pos_frac(W_BULLET_NUM, ONE + dist)
            },
            None => 0,
        };
        let t_b1 = match bullet_1 {
            Some(b_1) => {
                let diff = b_1.pos().sub(pos);
                let dist = diff.magnitude();
                proof {
                    lemma_dist_small(diff.x as int, diff.y as int, dist as int);
                }
                pos_frac(W_BULLET_NUM, ONE + dist)
            },
            None => 0,
        };
        let to_opp = pos.sub(state.opp.pos);
        let angle_from = Self::relative_angle(to_opp.angle() - state.opp.r);
        proof {
            assert(0 <= angle_from * angle_from <= 10342656) by (nonlinear_arith)
                requires
                    -3216 <= angle_from <= 3216,
            ;
        }
        let t_gun = pos_frac(W_GUN_NUM, FX_SQ + angle_from * angle_from);
        let mut one_angle: Vec<i64> = Vec::new();
        one_angle.push(Self::angle(index));
        let rc = self.map.ray_cast(state.bot.pos, &one_angle, ONE, 0, 200);
        let rc_pos = rc[0].1;
        proof {
            lemma_cast_point(rc@[0], shapes, state.bot.pos, ring_angle(index as int), ONE as int,
                0, 200);
        }
        let cdiff = pos.sub(rc_pos);
        let cdist = cdiff.magnitude();
        proof {
            lemma_dist_small(cdiff.x as int, cdiff.y as int, cdist as int);
        }
        let t_wall = pos_frac(W_WALL_NUM, ONE + cdist);
        let odiff = pos.sub(state.opp.pos);
        let odist = odiff.magnitude();
        proof {
            lemma_dist_small(odiff.x as int, odiff.y as int, odist as int);
        }
        let dd = odist - 409600;
        proof {
            assert(0 <= dd * dd <= 0x4000_0000_0000_0000) by (nonlinear_arith)
                requires
                    -0x8000_0000 <= dd <= 0x8000_0000,
            ;
            lemma_div_nonneg(dd as int * dd as int, FX_SQ as int);
            crate::fx::lemma_div_le(dd as int * dd as int, FX_SQ as int, 0x400_0000_0000);
        }
        let sq_off = (dd * dd) / FX_SQ;
        let t_standoff = pos_frac(W_STANDOFF_NUM, 10 * (FX_SQ + sq_off));
        let heading = Self::angle(index);
        let mut checked = false;
        let mut t_shot: i64 = 0;
        if bullet_0.is_none() && bullet_1.is_none() {
            if self.bullet_check(heading, state) {
                let bdiff = heading - state.bot.r;
                let ad = abs_fx(bdiff);
                t_shot = pos_frac(W_SHOT_NUM, ONE + ad);
                checked = true;
            }
        }
        let fdiff = heading - state.bot.r;
        let frel = Self::relative_angle(fdiff);
        proof {
            assert(0 <= frel * frel <= 10342656) by (nonlinear_arith)
                requires
                    -3216 <= frel <= 3216,
            ;
        }
        let t_turn = pos_frac(W_TURN_NUM, FX_SQ + frel * frel);
        let danger = t_b0 + t_b1 + t_gun + t_wall - t_standoff - t_shot - t_turn;
        proof {
            assert(danger as int == danger_spec(shapes, state, bullet_0, bullet_1,
                index as int));
        }
        (danger, checked)
    }

    /// Scores every collision-free candidate heading by the danger
    /// heuristic and returns the first lowest-danger one (a strict-less
    /// update over the ring order, so ties keep the earlier index), with
    /// the dodge and shoot flags. Candidates inside an obstacle are never
    /// scored and never chosen; with no free candidate, no index is
    /// returned.
    pub fn select_candidate(&self, state: State, bullet_0: Option<Bullet>, bullet_1: Option<
        Bullet,
    >) -> (r: (Option<usize>, bool, bool))
        requires
            self.wf(),
            state.wf(),
            bullet_0 matches Some(b) ==> b.wf(),
            bullet_1 matches Some(b) ==> b.wf(),
        ensures
            (r.0 is Some) == any_candidate_free(self.map.shapes@, state),
            r.0 matches Some(t) ==> best_candidate(self.map.shapes@, state, bullet_0, bullet_1,
                t as int),
            r.1 == dodge_spec(self.map.shapes@, state, bullet_0, bullet_1),
            r.2 == shoot_spec(self.map.shapes@, state, bullet_0, bullet_1),
    {
        let ghost shapes = self.map.shapes@;
        let mut lowest_danger: i64 = i64::MAX;
        let mut target: usize = 0;
        let mut found = false;
        let mut dodge = false;
        let mut shoot = false;
        let mut index: usize = 0;
        while index < ANGLE_CNT
            invariant
                self.wf(),
                state.wf(),
                shapes == self.map.shapes@,
                bullet_0 matches Some(b) ==> b.wf(),
                bullet_1 matches Some(b) ==> b.wf(),
                0 <= index <= ANGLE_CNT,
                found == exists|i: int| 0 <= i < index && #[trigger] candidate_free(shapes,
                    state, i),
                found ==> target < index && candidate_free(shapes, state, target as int)
                    && lowest_danger == danger_spec(shapes, state, bullet_0, bullet_1,
                    target as int),
                found ==> forall|j: int|
                    0 <= j < index && #[trigger] candidate_free(shapes, state, j) ==> danger_spec(
                        shapes, state, bullet_0, bullet_1, j) >= lowest_danger,
                found ==> forall|j: int|
                    0 <= j < target && #[trigger] candidate_free(shapes, state, j)
                        ==> danger_spec(shapes, state, bullet_0, bullet_1, j) > lowest_danger,
                !found ==> lowest_danger == i64::MAX,
                dodge == ((bullet_0 is Some || bullet_1 is Some) && found),
                shoot == (bullet_0 is None && bullet_1 is None && exists|i: int|
                    0 <= i < index && #[trigger] candidate_free(shapes, state, i) && shot_ok(
                        shapes, state, i)),
            decreases ANGLE_CNT - index,
        {
            let offset = self.angles[index];
            proof {
                lemma_ring_offset_bounds(index as int);
            }
            let pos = state.bot.pos.add(offset);
            let free = !self.map.intersects(pos);
            proof {
                reveal(candidate_free);
                assert(free == candidate_free(shapes, state, index as int));
            }
            if free {
                let (danger, checked) = self.candidate_danger(index, state, bullet_0, bullet_1);
                if bullet_0.is_some() || bullet_1.is_some() {
                    dodge = true;
                }
                if checked {
                    shoot = true;
                }
                if danger < lowest_danger {
                    lowest_danger = danger;
                    target = index;
                    found = true;
                }
            }
            index += 1;
        }
        (
            if found {
                Some(target)
            } else {
                None
            },
            dodge,
            shoot,
        )
    }

    /// One decision cycle: picks the safest candidate heading and
    /// synthesizes the move/turn/fire command for it. With every candidate
    /// blocked, the well-defined fallback is to hold position: no movement,
    /// no turn, no fire.
    pub fn action(&self, delta_time: i64, state: State, bullet_0: Option<Bullet>, bullet_1:
        Option<Bullet>) -> (r: (i64, i64, bool))
        requires
            self.wf(),
            state.wf(),
            bullet_0 matches Some(b) ==> b.wf(),
            bullet_1 matches Some(b) ==> b.wf(),
        ensures
            !any_candidate_free(self.map.shapes@, state) ==> r == (0i64, 0i64, false),
            any_candidate_free(self.map.shapes@, state) ==> exists|t: int|
                #[trigger] best_candidate(self.map.shapes@, state, bullet_0, bullet_1, t) && (
                r.0 as int, r.1 as int, r.2) == synth_spec(t, dodge_spec(self.map.shapes@,
                    state, bullet_0, bullet_1), shoot_spec(self.map.shapes@, state, bullet_0,
                    bullet_1), state.bot.r as int, state.bot.can_fire),
            r.2 ==> state.bot.can_fire && shoot_spec(self.map.shapes@, state, bullet_0,
                bullet_1),
            -1 <= r.0 <= 1,
            -1 <= r.1 <= 1,
    {
        let (target_opt, dodge, shoot) = self.select_candidate(state, bullet_0, bullet_1);
        match target_opt {
            None => (0, 0, false),
            Some(target) => {
                let r = Self::synthesize(target, dodge, shoot, state.bot.r, state.bot.can_fire);
                proof {
                    assert(best_candidate(self.map.shapes@, state, bullet_0, bullet_1,
                        target as int) && (r.0 as int, r.1 as int, r.2) == synth_spec(
                        target as int, dodge_spec(self.map.shapes@, state, bullet_0, bullet_1),
                        shoot_spec(self.map.shapes@, state, bullet_0, bullet_1),
                        state.bot.r as int, state.bot.can_fire));
                }
                r
            },
        }
    }

    /// Turns a winning candidate into the command: shortest signed turn,
    /// dodge fold, fire gate, unit-rate outputs.
    pub fn synthesize(target: usize, dodge: bool, shoot: bool, heading: i64, can_fire: bool) -> (r:
        (i64, i64, bool))
        requires
            target < ANGLE_CNT,
            -ROT_MAX <= heading <= ROT_MAX,
        ensures
            (r.0 as int, r.1 as int, r.2) == synth_spec(target as int, dodge, shoot,
                heading as int, can_fire),
            r.2 ==> shoot && can_fire,
            r.0 == 1 || r.0 == -1,
            -1 <= r.1 <= 1,
    {
        proof {
            reveal(synth_spec);
        }
        let mut turn_amt = Self::relative_angle(-Self::angle(target) - heading);
        let mut move_dir: i64 = 1;
        if dodge && abs_fx(turn_amt) > HALF_PI {
            move_dir = -1;
            if turn_amt > HALF_PI {
                turn_amt = turn_amt - PI;
            } else {
                turn_amt = turn_amt + PI;
            }
        }
        let tol = Self::angle(5);
        let final_shoot = abs_fx(turn_amt) < tol && shoot && can_fire;
        let turn_out: i64 = if abs_fx(turn_amt) < tol || final_shoot {
            0
        } else if turn_amt > 0 {
            1
        } else {
            -1
        };
        (move_dir, turn_out, final_shoot)
    }
}

/// A distance between points within the test range fits one more square.
proof fn lemma_dist_small(dx: int, dy: int, d: int)
    requires
        is_sqrt(dx * dx + dy * dy, d),
        -0x4000_0000 <= dx <= 0x4000_0000,
        -0x4000_0000 <= dy <= 0x4000_0000,
    ensures
        0 <= d <= 0x8000_0000,
{
    assert(dx * dx + dy * dy <= 0x2000_0000_0000_0000) by (nonlinear_arith)
        requires
            -0x4000_0000 <= dx <= 0x4000_0000,
            -0x4000_0000 <= dy <= 0x4000_0000,
    ;
    assert(d <= 0x8000_0000) by (nonlinear_arith)
        requires
            d >= 0,
            d * d <= 0x2000_0000_0000_0000,
    ;
}

/// The decision layer around the selector: holds the rolling environment,
/// the last command, and the team binding.
pub struct Controller {
    pub env: Env,
    pub out_action: OutputAction,
    pub controller: MinimumDangerController,
    pub team: Team,
}

impl Controller {
    pub open spec fn wf(self) -> bool {
        self.env.wf() && self.controller.wf()
    }

    /// The projectile tracked for this agent's own slot.
    pub open spec fn own_bullet(self) -> Option<Bullet> {
        match self.team {
            Team::A => self.env.p0_projectile,
            Team::B => self.env.p1_projectile,
        }
    }

    /// The projectile tracked for the opponent's slot.
    pub open spec fn enemy_bullet(self) -> Option<Bullet> {
        match self.team {
            Team::A => self.env.p1_projectile,
            Team::B => self.env.p0_projectile,
        }
    }

    pub fn new(env: Env, map: ObstacleField, team: Team) -> (r: Controller)
        requires
            env.wf(),
            map.wf(),
        ensures
            r.wf(),
            r.env == env,
            r.team == team,
            r.out_action == (OutputAction { m: 0, r: 0, f: 0 }),
            r.controller.map == map,
    {
        Controller { env, out_action: OutputAction::new(), controller: MinimumDangerController::new(map), team }
    }

    /// The command computed by the most recent cycle.
    pub fn out_data(&self) -> (r: OutputAction)
        ensures
            r == self.out_action,
    {
        self.out_action
    }

    /// Runs one decision cycle against the newest snapshot: nothing
    /// changes before the first snapshot arrives; otherwise the danger
    /// minimizer's command is stored, with the turn sign negated for the
    /// wire and the fire flag widened to an integer.
    pub fn update(&mut self, delta_time: i64)
        requires
            old(self).wf(),
        ensures
            final (self).wf(),
            final (self).env == old(self).env,
            final (self).controller == old(self).controller,
            final (self).team == old(self).team,
            old(self).env.history@.len() == 0 ==> final (self).out_action == old(
                self,
            ).out_action,
            old(self).env.history@.len() > 0 && !any_candidate_free(
                old(self).controller.map.shapes@,
                old(self).env.history@.last(),
            ) ==> final (self).out_action == (OutputAction { m: 0, r: 0, f: 0 }),
            old(self).env.history@.len() > 0 && any_candidate_free(
                old(self).controller.map.shapes@,
                old(self).env.history@.last(),
            ) ==> exists|t: int|
                #[trigger] best_candidate(old(self).controller.map.shapes@,
                    old(self).env.history@.last(), old(self).own_bullet(),
                    old(self).enemy_bullet(), t) && final (self).out_action == out_of(
                    synth_spec(t, dodge_spec(old(self).controller.map.shapes@,
                    old(self).env.history@.last(), old(self).own_bullet(),
                    old(self).enemy_bullet()), shoot_spec(old(self).controller.map.shapes@,
                    old(self).env.history@.last(), old(self).own_bullet(),
                    old(self).enemy_bullet()), old(self).env.history@.last().bot.r as int,
                    old(self).env.history@.last().bot.can_fire)),
            old(self).env.history@.len() > 0 ==> -1 <= final (self).out_action.m <= 1 && -1
                <= final (self).out_action.r <= 1 && (final (self).out_action.f == 0
                || final (self).out_action.f == 1),
            old(self).env.history@.len() > 0 && final (self).out_action.f == 1 ==> old(
                self,
            ).env.history@.last().bot.can_fire && shoot_spec(old(self).controller.map.shapes@,
                old(self).env.history@.last(), old(self).own_bullet(), old(self).enemy_bullet()),
    {
        let state = self.env.current_state();
        if let Some(state) = state {
            let bullet_0 = self.env.get_bot_bullet(self.team);
            let bullet_1 = self.env.get_enemy_bullet(self.team);
            proof {
                assert(self.env.history@.last().wf());
            }
            let action = self.controller.action(delta_time, state, bullet_0, bullet_1);
            let m = action.0 as i32;
            let r = -(action.1 as i32);
            let f: i32 = if action.2 {
                1
            } else {
                0
            };
            self.out_action = OutputAction { m, r, f };
            proof {
                let shapes = old(self).controller.map.shapes@;
                let st = old(self).env.history@.last();
                let b0 = match old(self).team {
                    Team::A => old(self).env.p0_projectile,
                    Team::B => old(self).env.p1_projectile,
                };
                let b1 = match old(self).team {
                    Team::A => old(self).env.p1_projectile,
                    Team::B => old(self).env.p0_projectile,
                };
                assert(shapes == self.controller.map.shapes@);
                assert(st == state);
                assert(b0 == bullet_0);
                assert(b1 == bullet_1);
                if any_candidate_free(shapes, st) {
                    lemma_pack_action(shapes, st, b0, b1, action.0, action.1, action.2,
                        self.out_action);
                    let t = choose|t: int|
                        #[trigger] best_candidate(shapes, st, b0, b1, t) && self.out_action
                            == out_of(synth_spec(t, dodge_spec(shapes, st, b0, b1), shoot_spec(
                            shapes, st, b0, b1), st.bot.r as int, st.bot.can_fire));
                    assert(best_candidate(shapes, st, b0, b1, t) && self.out_action == out_of(
                        synth_spec(t, dodge_spec(shapes, st, b0, b1), shoot_spec(shapes, st, b0,
                        b1), st.bot.r as int, st.bot.can_fire)));
                }
            }
        }
    }
}

/// Carries the decision function's contract through the wire mapping: the
/// stored command is the wire form of the synthesized command for the best
/// candidate.
proof fn lemma_pack_action(
    shapes: Seq<Shape>,
    state: State,
    b0: Option<Bullet>,
    b1: Option<Bullet>,
    a0: i64,
    a1: i64,
    a2: bool,
    out: OutputAction,
)
    requires
        exists|t: int|
            #[trigger] best_candidate(shapes, state, b0, b1, t) && (a0 as int, a1 as int, a2)
                == synth_spec(t, dodge_spec(shapes, state, b0, b1), shoot_spec(shapes, state,
                b0, b1), state.bot.r as int, state.bot.can_fire),
        -1 <= a0 <= 1,
        -1 <= a1 <= 1,
        out.m == a0 as i32,
        out.r == -(a1 as i32),
        out.f == (if a2 {
            1i32
        } else {
            0i32
        }),
    ensures
        exists|t: int|
            #[trigger] best_candidate(shapes, state, b0, b1, t) && out == out_of(synth_spec(t,
                dodge_spec(shapes, state, b0, b1), shoot_spec(shapes, state, b0, b1),
                state.bot.r as int, state.bot.can_fire)),
{
    let t = choose|t: int|
        #[trigger] best_candidate(shapes, state, b0, b1, t) && (a0 as int, a1 as int, a2)
            == synth_spec(t, dodge_spec(shapes, state, b0, b1), shoot_spec(shapes, state, b0,
            b1), state.bot.r as int, state.bot.can_fire);
    assert(best_candidate(shapes, state, b0, b1, t) && out == out_of(synth_spec(t, dodge_spec(
        shapes, state, b0, b1), shoot_spec(shapes, state, b0, b1), state.bot.r as int,
        state.bot.can_fire)));
}

} // verus!
