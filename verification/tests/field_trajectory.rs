use r_core::fx::ONE;
use r_core::vec2::Vec2;
use r_core::shape::Shape;
use r_core::map::ObstacleField;
use r_core::state::Bullet;
use r_core::trajectory::BulletTrajectory;

fn wall(cx: i64, cy: i64, wx: i64, wy: i64) -> Shape {
    Shape::Rect { pos: Vec2::new(cx, cy), w_h: Vec2::new(wx, wy) }
}

#[test]
fn field_containment_is_any_shape() {
    let field = ObstacleField::new(vec![
        wall(10_000, 0, 1000, 1000),
        Shape::Circle { pos: Vec2::new(-10_000, 0), r: 500 },
    ]);
    assert!(field.intersects(Vec2::new(10_000, 0)));
    assert!(field.intersects(Vec2::new(-10_000, 100)));
    assert!(!field.intersects(Vec2::new(0, 0)));
    let empty = ObstacleField::new(Vec::new());
    assert!(!empty.intersects(Vec2::new(0, 0)));
}

#[test]
fn single_cast_miss_reports_last_probe() {
    let shapes: Vec<Shape> = Vec::new();
    let r = ObstacleField::single_cast(Vec2::new(0, 0), 0, ONE, 0, 10, &shapes);
    assert_eq!(r.0, None);
    assert_eq!(r.1, Vec2::new(9 * ONE, 0));
    assert_eq!(r.2, 10);
}

#[test]
fn single_cast_finds_first_hit_step() {
    let w = wall(10 * ONE, 0, ONE, 10 * ONE);
    let shapes = vec![w];
    let r = ObstacleField::single_cast(Vec2::new(0, 0), 0, ONE, 0, 200, &shapes);
    // The wall spans x in (9*ONE, 11*ONE) exclusively: step 10 is the first
    // probe strictly inside.
    assert_eq!(r.0, Some(w));
    assert_eq!(r.1, Vec2::new(10 * ONE, 0));
    assert_eq!(r.2, 10);
}

#[test]
fn single_cast_returns_first_shape_in_field_order() {
    let a = wall(10 * ONE, 0, 2 * ONE, 10 * ONE);
    let b = wall(10 * ONE, 0, 3 * ONE, 10 * ONE);
    let r1 = ObstacleField::single_cast(Vec2::new(0, 0), 0, ONE, 0, 200, &vec![a, b]);
    let r2 = ObstacleField::single_cast(Vec2::new(0, 0), 0, ONE, 0, 200, &vec![b, a]);
    // Both orders hit b's larger span first (step 8), but report the first
    // containing shape in field order.
    assert_eq!(r1.2, 8);
    assert_eq!(r2.2, 8);
    assert_eq!(r1.0, Some(b));
    assert_eq!(r2.0, Some(b));
}

#[test]
fn batch_cast_equals_sequential_casts() {
    let field = ObstacleField::new(vec![
        wall(10 * ONE, 0, ONE, 50 * ONE),
        Shape::Circle { pos: Vec2::new(0, 20 * ONE), r: 4 * ONE },
    ]);
    let mut angles: Vec<i64> = Vec::new();
    let mut i: i64 = 0;
    while i < 16 {
        angles.push(i * 402);
        i += 1;
    }
    let batch = field.ray_cast(Vec2::new(0, 0), &angles, ONE, 0, 200);
    assert_eq!(batch.len(), angles.len());
    for (k, angle) in angles.iter().enumerate() {
        let single = ObstacleField::single_cast(Vec2::new(0, 0), *angle, ONE, 0, 200,
            &field.shapes);
        assert_eq!(batch[k], single);
    }
}

#[test]
fn bounce_reflects_off_the_struck_face() {
    let w = wall(10 * ONE, 0, ONE, 10 * ONE);
    // Hitting the left face travelling along +x reverses the heading.
    let a = ObstacleField::get_bounce(Vec2::new(9 * ONE + 512, 0), 0, w);
    assert_eq!(a, 2 * 3216 - 3216);
}

#[test]
fn trajectory_times_accumulate_segment_travel() {
    let t = BulletTrajectory::new(vec![Vec2::new(0, 0), Vec2::new(409600, 0)]);
    assert_eq!(t.times, vec![0, ONE]);
    let t2 = BulletTrajectory::new(vec![
        Vec2::new(0, 0),
        Vec2::new(409600, 0),
        Vec2::new(409600, 409600),
    ]);
    assert_eq!(t2.times, vec![0, ONE, 2 * ONE]);
}

#[test]
fn position_at_zero_is_first_vertex() {
    let t = BulletTrajectory::new(vec![
        Vec2::new(0, 0),
        Vec2::new(409600, 0),
        Vec2::new(409600, 409600),
    ]);
    assert_eq!(t.position_in(0), Some(Vec2::new(0, 0)));
    assert_eq!(t.position_in(-5), Some(Vec2::new(0, 0)));
}

#[test]
fn position_interpolates_with_the_reversed_fraction() {
    let t = BulletTrajectory::new(vec![
        Vec2::new(0, 0),
        Vec2::new(409600, 0),
        Vec2::new(409600, 409600),
    ]);
    // Inside the first segment the recorded fraction runs from the first
    // vertex away from the second.
    assert_eq!(t.position_in(512), Some(Vec2::new(-204800, 0)));
    assert_eq!(t.position_in(1024), Some(Vec2::new(-409600, 0)));
    // The final segment answers queries like any other.
    assert_eq!(t.position_in(1500), Some(Vec2::new(409600, -190400)));
    // At or past the last vertex's arrival time there is no position.
    assert_eq!(t.position_in(2048), None);
    assert_eq!(t.position_in(100_000), None);
}

#[test]
fn one_vertex_trajectory_only_answers_at_the_start() {
    let t = BulletTrajectory::new(vec![Vec2::new(7, 8)]);
    assert_eq!(t.position_in(0), Some(Vec2::new(7, 8)));
    assert_eq!(t.position_in(1), None);
}

#[test]
fn zero_bounce_budget_keeps_two_vertices_at_most() {
    let field = ObstacleField::new(vec![wall(100 * ONE, 0, 10 * ONE, 100 * ONE)]);
    let bullet = Bullet::new(0, 0, 409600, 0);
    let t = field.get_bullet_trajectory(bullet, ONE, 0);
    assert!(t.bounces.len() <= 2);
    assert_eq!(t.bounces, vec![Vec2::new(0, 0)]);
}

#[test]
fn simulation_records_hits_and_stops_on_escape() {
    let field = ObstacleField::new(vec![wall(102400, 0, 10240, 102400)]);
    let bullet = Bullet::new(0, 0, 409600, 0);
    let t = field.get_bullet_trajectory(bullet, ONE, 3);
    // One hit on the wall's near face, then the reflected walk escapes the
    // field and exhausts its budget.
    assert_eq!(t.bounces, vec![Vec2::new(0, 0), Vec2::new(93184, 0)]);
    assert_eq!(t.times, vec![0, 232]);
}

#[test]
fn simulation_bounces_between_facing_walls() {
    let field = ObstacleField::new(vec![
        wall(409600, 0, 102400, 409600),
        wall(-409600, 0, 102400, 409600),
    ]);
    let bullet = Bullet::new(0, 0, 409600, 0);
    let t = field.get_bullet_trajectory(bullet, ONE, 100);
    assert_eq!(
        t.bounces,
        vec![
            Vec2::new(0, 0),
            Vec2::new(308224, 0),
            Vec2::new(-308224, 0),
            Vec2::new(308224, 0),
            Vec2::new(-308224, 0),
        ]
    );
    assert_eq!(t.times, vec![0, 770, 2311, 3852, 5393]);
}

#[test]
fn single_cast_with_an_empty_range_stays_at_the_source() {
    let shapes: Vec<Shape> = Vec::new();
    let r = ObstacleField::single_cast(Vec2::new(7, 9), 0, ONE, 5, 3, &shapes);
    assert_eq!(r, (None, Vec2::new(7, 9), 3));
}
