use r_core::fx::{ONE, PI, HALF_PI};
use r_core::vec2::Vec2;
use r_core::shape::Shape;
use r_core::map::ObstacleField;
use r_core::state::{BotData, Bullet, State};
use r_core::env::{Env, Team};
use r_core::controller::{Controller, MinimumDangerController, OutputAction};

fn wall(cx: i64, cy: i64, wx: i64, wy: i64) -> Shape {
    Shape::Rect { pos: Vec2::new(cx, cy), w_h: Vec2::new(wx, wy) }
}

fn empty_field() -> ObstacleField {
    ObstacleField::new(Vec::new())
}

#[test]
fn output_action_starts_at_rest() {
    let a = OutputAction::new();
    assert_eq!(a.m, 0);
    assert_eq!(a.r, 0);
    assert_eq!(a.f, 0);
}

#[test]
fn ring_angles_cover_one_turn() {
    assert_eq!(MinimumDangerController::angle(0), 0);
    assert_eq!(MinimumDangerController::angle(90), HALF_PI);
    assert_eq!(MinimumDangerController::angle(180), PI);
    assert_eq!(MinimumDangerController::angle(5), 89);
    assert_eq!(MinimumDangerController::angle(359), 6414);
}

#[test]
fn relative_angle_wraps_to_half_open_interval() {
    assert_eq!(MinimumDangerController::relative_angle(0), 0);
    assert_eq!(MinimumDangerController::relative_angle(100), 100);
    // The exact half-turn wraps to +PI: the interval is (-PI, PI].
    assert_eq!(MinimumDangerController::relative_angle(PI), PI);
    assert_eq!(MinimumDangerController::relative_angle(4000), -2432);
    assert_eq!(MinimumDangerController::relative_angle(-4000), 2432);
    assert_eq!(MinimumDangerController::relative_angle(2 * PI), 0);
    assert_eq!(MinimumDangerController::relative_angle(-PI), PI);
}

#[test]
fn synthesis_turns_and_fires() {
    // Facing the winning candidate already: no turn, forward.
    assert_eq!(MinimumDangerController::synthesize(0, false, false, 0, true), (1, 0, false));
    // A feasible shot within tolerance fires.
    assert_eq!(MinimumDangerController::synthesize(0, false, true, 0, true), (1, 0, true));
    // Not ready to fire: no shot.
    assert_eq!(MinimumDangerController::synthesize(0, false, true, 0, false), (1, 0, false));
    // The candidate straight behind while dodging folds into reverse.
    assert_eq!(MinimumDangerController::synthesize(180, true, false, 0, true), (-1, 0, false));
    // The same candidate without a dodge turns in place.
    let (m, t, f) = MinimumDangerController::synthesize(90, false, false, 0, true);
    assert_eq!(m, 1);
    assert_eq!(t, -1);
    assert!(!f);
}

fn facing_duel_state() -> State {
    let bot = BotData::new(Vec2::new(0, 0), 0, true);
    let opp = BotData::new(Vec2::new(409600, 0), PI, true);
    State::new(bot, opp)
}

#[test]
fn state_derives_distance_and_bearing() {
    let s = facing_duel_state();
    assert_eq!(s.dist, 409600);
    assert_eq!(s.abs_bearing, 0);
}

#[test]
fn estimated_projectile_position_is_linear() {
    let b = Bullet::new(100, 200, 1024, 2048);
    assert_eq!(b.estimated_pos(512), Vec2::new(100 + 512, 200 + 1024));
    assert_eq!(b.estimated_pos(0), Vec2::new(100, 200));
    // A negative time runs the same straight line backwards.
    assert_eq!(b.estimated_pos(-512), Vec2::new(100 - 512, 200 - 1024));
    assert_eq!(b.pos(), Vec2::new(100, 200));
    assert_eq!(b.vel(), Vec2::new(1024, 2048));
}

#[test]
fn open_duel_drives_straight_at_the_opponent() {
    let c = MinimumDangerController::new(empty_field());
    let s = facing_duel_state();
    let (target, dodge, shoot) = c.select_candidate(s, None, None);
    let t = target.expect("some candidate must be free in an empty field");
    assert!(t <= 5 || t >= 355, "winner {} should be near the bearing", t);
    assert!(!dodge);
    // With nothing to bounce off, the simulated shot exhausts its budget
    // and the feasibility check rejects it.
    assert!(!shoot);
    let (m, turn, fire) = c.action(0, s, None, None);
    assert_eq!(m, 1);
    assert_eq!(turn, 0);
    assert!(!fire);
}

#[test]
fn projectile_on_top_raises_dodge_and_blocks_the_shot() {
    let c = MinimumDangerController::new(empty_field());
    let s = facing_duel_state();
    let b = Bullet::new(0, 0, 409600, 0);
    let (target, dodge, shoot) = c.select_candidate(s, Some(b), None);
    assert!(target.is_some());
    assert!(dodge);
    assert!(!shoot);
    let (_, _, fire) = c.action(0, s, Some(b), None);
    assert!(!fire);
}

#[test]
fn fully_blocked_ring_returns_the_fallback_action() {
    let giant = Shape::Circle { pos: Vec2::new(0, 0), r: 2_000_000 };
    let c = MinimumDangerController::new(ObstacleField::new(vec![giant]));
    let s = facing_duel_state();
    let (target, dodge, shoot) = c.select_candidate(s, None, None);
    assert_eq!(target, None);
    assert!(!dodge);
    assert!(!shoot);
    assert_eq!(c.action(0, s, None, None), (0, 0, false));
}

fn walled_arena() -> ObstacleField {
    ObstacleField::new(vec![
        wall(409600, 0, 102400, 409600),
        wall(-409600, 0, 102400, 409600),
    ])
}

#[test]
fn feasibility_accepts_a_bouncing_shot_path() {
    let c = MinimumDangerController::new(walled_arena());
    let bot = BotData::new(Vec2::new(0, 0), 0, true);
    let opp = BotData::new(Vec2::new(-102400, 0), 0, true);
    let s = State::new(bot, opp);
    // The simulated path bounces between the walls; its sampled positions
    // sweep across the opponent's box before ever re-entering the agent's.
    assert!(c.bullet_check(0, s));
    let (_, dodge, shoot) = c.select_candidate(s, None, None);
    assert!(!dodge);
    assert!(shoot);
}

#[test]
fn feasibility_rejects_an_exhausted_path() {
    let c = MinimumDangerController::new(empty_field());
    let s = facing_duel_state();
    assert!(!c.bullet_check(0, s));
}

#[test]
fn environment_tracks_projectiles_by_team() {
    let mut env = Env::new(10);
    assert_eq!(env.current_state(), None);
    let bot = BotData::new(Vec2::new(0, 0), 0, true);
    let opp = BotData::new(Vec2::new(409600, 0), PI, false);
    let p0 = Bullet::new(1, 2, 3, 4);
    let p1 = Bullet::new(5, 6, 7, 8);
    env.update(bot, opp, Some(p0), Some(p1));
    assert_eq!(env.get_bot_bullet(Team::A), Some(p0));
    assert_eq!(env.get_bot_bullet(Team::B), Some(p1));
    assert_eq!(env.get_enemy_bullet(Team::A), Some(p1));
    assert_eq!(env.get_enemy_bullet(Team::B), Some(p0));
    let st = env.current_state().expect("one snapshot recorded");
    assert_eq!(st.bot, bot);
    assert_eq!(st.opp, opp);
}

#[test]
fn environment_window_stays_bounded() {
    let mut env = Env::new(2);
    let bot = BotData::new(Vec2::new(0, 0), 0, true);
    let opp = BotData::new(Vec2::new(1000, 0), 0, true);
    let mut i = 0;
    while i < 6 {
        env.update(bot, opp, None, None);
        assert!(env.history.len() <= 3);
        i += 1;
    }
}

#[test]
fn controller_cycle_produces_a_command() {
    let env = Env::new(10);
    let mut controller = Controller::new(env, empty_field(), Team::A);
    // No snapshot yet: the command stays at rest.
    controller.update(0);
    assert_eq!(controller.out_data(), OutputAction::new());
    let bot = BotData::new(Vec2::new(0, 0), 0, true);
    let opp = BotData::new(Vec2::new(409600, 0), PI, true);
    controller.env.update(bot, opp, None, None);
    controller.update(0);
    let out = controller.out_data();
    assert_eq!(out.m, 1);
    assert_eq!(out.r, 0);
    assert_eq!(out.f, 0);
}

#[test]
fn fully_blocked_cycle_holds_position() {
    let giant = Shape::Circle { pos: Vec2::new(0, 0), r: 2_000_000 };
    let mut controller = Controller::new(
        Env::new(10),
        ObstacleField::new(vec![giant]),
        Team::B,
    );
    let bot = BotData::new(Vec2::new(0, 0), 0, true);
    let opp = BotData::new(Vec2::new(409600, 0), PI, true);
    controller.env.update(bot, opp, None, None);
    controller.update(0);
    assert_eq!(controller.out_data(), OutputAction::new());
}
