//! Match-state snapshots: vehicle poses, projectiles and the derived
//! distance and bearing between the two vehicles.

use vstd::prelude::*;
use crate::fx::{ONE, PI, ARENA_MAX, ROT_MAX, COORD_MAX, small, isqrt};
use crate::trig::atan2_spec;
use crate::vec2::{Vec2, bounded, is_sqrt};

verus! {

/// One vehicle's pose: position, heading in fixed-point radians, and
/// whether its gun is ready.
#[derive(Clone, Copy, Debug, PartialEq, Eq, Structural)]
pub struct BotData {
    pub pos: Vec2,
    pub r: i64,
    pub can_fire: bool,
}

impl BotData {
    /// In the arena, with a heading within the supported rotation range.
    pub open spec fn wf(self) -> bool {
        bounded(self.pos, ARENA_MAX as int) && -ROT_MAX <= self.r <= ROT_MAX
    }

    /// Builds a pose from already parsed fixed-point fields.
    pub fn new(pos: Vec2, r: i64, can_fire: bool) -> (b: BotData)
        ensures
            b.pos == pos,
            b.r == r,
            b.can_fire == can_fire,
    {
        BotData { pos, r, can_fire }
    }
}

/// A projectile in flight: position and velocity.
#[derive(Clone, Copy, Debug, PartialEq, Eq, Structural)]
pub struct Bullet {
    pub pos: Vec2,
    pub vel: Vec2,
}

impl Bullet {
    /// Position and velocity within the arena range.
    pub open spec fn wf(self) -> bool {
        bounded(self.pos, ARENA_MAX as int) && bounded(self.vel, ARENA_MAX as int)
    }

    pub open spec fn spec_pos(self) -> Vec2 {
        self.pos
    }

    pub open spec fn spec_vel(self) -> Vec2 {
        self.vel
    }

    pub fn new(x: i64, y: i64, vx: i64, vy: i64) -> (b: Bullet)
        ensures
            b.spec_pos() == (Vec2 { x, y }),
            b.spec_vel() == (Vec2 { x: vx, y: vy }),
    {
        Bullet { pos: Vec2::new(x, y), vel: Vec2::new(vx, vy) }
    }

    pub fn new_v(pos: Vec2, vel: Vec2) -> (b: Bullet)
        ensures
            b.spec_pos() == pos,
            b.spec_vel() == vel,
    {
        Bullet { pos, vel }
    }

    /// Where the projectile will be after `time`, flying straight. A
    /// negative time runs the same line backwards.
    pub fn estimated_pos(&self, time: i64) -> (r: Vec2)
        requires
            self.wf(),
            -0x10_0000 <= time <= 0x10_0000,
        ensures
            r.x == self.spec_pos().x + self.spec_vel().x * time / (ONE as int),
            r.y == self.spec_pos().y + self.spec_vel().y * time / (ONE as int),
    {
        proof {
            assert(-(ARENA_MAX * 0x10_0000) <= self.vel.x * time <= ARENA_MAX * 0x10_0000)
                by (nonlinear_arith)
                requires
                    -ARENA_MAX <= self.vel.x <= ARENA_MAX,
                    -0x10_0000 <= time <= 0x10_0000,
            ;
            assert(-(ARENA_MAX * 0x10_0000) <= self.vel.y * time <= ARENA_MAX * 0x10_0000)
                by (nonlinear_arith)
                requires
                    -ARENA_MAX <= self.vel.y <= ARENA_MAX,
                    -0x10_0000 <= time <= 0x10_0000,
            ;
            crate::fx::lemma_div_in_range(self.vel.x * time, ONE as int,
                ARENA_MAX as int * 0x10_0000);
            crate::fx::lemma_div_in_range(self.vel.y * time, ONE as int,
                ARENA_MAX as int * 0x10_0000);
        }
        self.pos.add(self.vel.mul_fx(time))
    }

    pub fn pos(&self) -> (r: Vec2)
        ensures
            r == self.spec_pos(),
    {
        self.pos
    }

    pub fn vel(&self) -> (r: Vec2)
        ensures
            r == self.spec_vel(),
    {
        self.vel
    }
}

/// One decision cycle's snapshot: both poses, their distance, and the
/// absolute bearing from the agent to the opponent.
#[derive(Clone, Copy, Debug, PartialEq, Eq, Structural)]
pub struct State {
    pub bot: BotData,
    pub opp: BotData,
    pub dist: i64,
    pub abs_bearing: i64,
}

impl State {
    pub open spec fn wf(self) -> bool {
        &&& self.bot.wf()
        &&& self.opp.wf()
        &&& is_sqrt((self.bot.pos.x - self.opp.pos.x) * (self.bot.pos.x - self.opp.pos.x) + (
        self.bot.pos.y - self.opp.pos.y) * (self.bot.pos.y - self.opp.pos.y), self.dist as int)
        &&& self.abs_bearing == atan2_spec(self.opp.pos.y - self.bot.pos.y, self.opp.pos.x
            - self.bot.pos.x)
        &&& -PI <= self.abs_bearing <= PI
    }

    /// Derives the snapshot from the two poses: the distance is the length
    /// of the separation, the bearing its polar angle.
    pub fn new(bot: BotData, opp: BotData) -> (s: State)
        requires
            bot.wf(),
            opp.wf(),
        ensures
            s.bot == bot,
            s.opp == opp,
            s.wf(),
    {
        let diff = bot.pos.sub(opp.pos);
        let dist = diff.magnitude();
        let to_opp = opp.pos.sub(bot.pos);
        let abs_bearing = to_opp.angle();
        State { bot, opp, dist, abs_bearing }
    }
}

} // verus!
