//! The per-cycle environment: a bounded history of match snapshots and the
//! two tracked projectiles, keyed by team.

use vstd::prelude::*;
use crate::state::{State, BotData, Bullet};

verus! {

/// Which side this agent plays.
#[derive(Clone, Copy, Debug, PartialEq, Eq, Structural)]
pub enum Team {
    A,
    B,
}

/// The rolling window of recent snapshots and the tracked projectiles.
pub struct Env {
    pub history: Vec<State>,
    pub p0_projectile: Option<Bullet>,
    pub p1_projectile: Option<Bullet>,
    pub max_size: usize,
}

impl Env {
    /// Every recorded snapshot is well-formed, and the window stays within
    /// one entry of its bound.
    pub open spec fn wf(self) -> bool {
        &&& forall|i: int| 0 <= i < self.history@.len() ==> (#[trigger] self.history@[i]).wf()
        &&& self.history@.len() <= self.max_size + 1
        &&& (self.p0_projectile matches Some(b) ==> b.wf())
        &&& (self.p1_projectile matches Some(b) ==> b.wf())
    }

    pub fn new(max_size: usize) -> (r: Env)
        ensures
            r.history@.len() == 0,
            r.p0_projectile is None,
            r.p1_projectile is None,
            r.max_size == max_size,
            r.wf(),
    {
        Env { history: Vec::new(), p0_projectile: None, p1_projectile: None, max_size }
    }

    /// Records one cycle: drops the oldest snapshot when the window is over
    /// its bound, stores the tracked projectiles, and appends the snapshot
    /// derived from the two poses.
    pub fn update(&mut self, bot: BotData, opp: BotData, p0: Option<Bullet>, p1: Option<Bullet>)
        requires
            old(self).wf(),
            bot.wf(),
            opp.wf(),
            p0 matches Some(b) ==> b.wf(),
            p1 matches Some(b) ==> b.wf(),
            old(self).max_size < 0x1000_0000,
        ensures
            final (self).wf(),
            final (self).max_size == old(self).max_size,
            final (self).p0_projectile == p0,
            final (self).p1_projectile == p1,
            final (self).history@.len() >= 1,
            ({
                let s = final (self).history@.last();
                s.bot == bot && s.opp == opp && s.wf()
            }),
            final (self).history@.drop_last() == if old(self).history@.len() > old(
                self,
            ).max_size {
                old(self).history@.skip(1)
            } else {
                old(self).history@
            },
    {
        if self.history.len() > self.max_size {
            let _ = self.history.remove(0);
            proof {
                assert(self.history@ =~= old(self).history@.skip(1));
            }
        }
        self.p0_projectile = p0;
        self.p1_projectile = p1;
        let s = State::new(bot, opp);
        self.history.push(s);
        proof {
            assert(self.history@.drop_last() =~= if old(self).history@.len() > old(
                self,
            ).max_size {
                old(self).history@.skip(1)
            } else {
                old(self).history@
            });
        }
    }

    /// The agent's own projectile for its team slot.
    pub fn get_bot_bullet(&self, team: Team) -> (r: Option<Bullet>)
        ensures
            r == match team {
                Team::A => self.p0_projectile,
                Team::B => self.p1_projectile,
            },
    {
        match team {
            Team::A => self.p0_projectile,
            Team::B => self.p1_projectile,
        }
    }

    /// The opponent's projectile for this agent's team slot.
    pub fn get_enemy_bullet(&self, team: Team) -> (r: Option<Bullet>)
        ensures
            r == match team {
                Team::A => self.p1_projectile,
                Team::B => self.p0_projectile,
            },
    {
        match team {
            Team::A => self.p1_projectile,
            Team::B => self.p0_projectile,
        }
    }

    /// The latest snapshot, or nothing before the first update.
    pub fn current_state(&self) -> (r: Option<State>)
        ensures
            r == if self.history@.len() == 0 {
                None::<State>
            } else {
                Some(self.history@.last())
            },
    {
        if self.history.len() == 0 {
            None
        } else {
            Some(self.history[self.history.len() - 1])
        }
    }
}

} // verus!
