use r_core::fx::{ONE, PI, HALF_PI};
use r_core::vec2::Vec2;
use r_core::shape::Shape;

#[test]
fn rect_contains_center_and_excludes_edges() {
    let r = Shape::Rect { pos: Vec2::new(0, 0), w_h: Vec2::new(100, 50) };
    assert!(r.intersects(Vec2::new(0, 0)));
    assert!(r.intersects(Vec2::new(99, 49)));
    // Both boundaries are exclusive.
    assert!(!r.intersects(Vec2::new(100, 0)));
    assert!(!r.intersects(Vec2::new(-100, 0)));
    assert!(!r.intersects(Vec2::new(0, 50)));
    assert!(!r.intersects(Vec2::new(0, -50)));
    assert!(!r.intersects(Vec2::new(5000, 5000)));
}

#[test]
fn circle_contains_strictly_inside() {
    let c = Shape::Circle { pos: Vec2::new(0, 0), r: 1000 };
    assert!(c.intersects(Vec2::new(0, 0)));
    assert!(c.intersects(Vec2::new(999, 0)));
    // A point exactly on the radius is outside the open disc.
    assert!(!c.intersects(Vec2::new(1000, 0)));
    assert!(!c.intersects(Vec2::new(708, 708)));
    assert!(c.intersects(Vec2::new(707, 707)));
}

#[test]
fn rotated_box_matches_plain_box_at_zero_rotation() {
    let center = Vec2::new(2048, -1024);
    let half = Vec2::new(900, 400);
    let plain = Shape::Rect { pos: center, w_h: half };
    let rotated = Shape::RotRect { pos: center, w_h: half, rot: 0 };
    let mut seed: i64 = 12345;
    let mut i = 0;
    while i < 100 {
        seed = (seed * 1103515245 + 12345) % 2147483648;
        let px = (seed % 4000) - 2000 + 2048;
        seed = (seed * 1103515245 + 12345) % 2147483648;
        let py = (seed % 2000) - 1000 - 1024;
        let p = Vec2::new(px, py);
        assert_eq!(plain.intersects(p), rotated.intersects(p));
        i += 1;
    }
}

#[test]
fn rotated_box_quarter_turn_swaps_axes() {
    let tall = Shape::RotRect { pos: Vec2::new(0, 0), w_h: Vec2::new(2048, 1024), rot: HALF_PI };
    // After a quarter turn the long side points along y.
    assert!(tall.intersects(Vec2::new(0, 1800)));
    assert!(!tall.intersects(Vec2::new(1800, 0)));
    let flat = Shape::Rect { pos: Vec2::new(0, 0), w_h: Vec2::new(2048, 1024) };
    assert!(!flat.intersects(Vec2::new(0, 1800)));
    assert!(flat.intersects(Vec2::new(1800, 0)));
}

#[test]
fn rotate_90_changes_box_extents() {
    let mut r = Shape::Rect { pos: Vec2::new(0, 0), w_h: Vec2::new(2048, 1024) };
    r.rotate_90();
    assert_eq!(r, Shape::Rect { pos: Vec2::new(0, 0), w_h: Vec2::new(1024, 2048) });
    let mut rr = Shape::RotRect { pos: Vec2::new(0, 0), w_h: Vec2::new(10, 20), rot: 100 };
    rr.rotate_90();
    assert_eq!(
        rr,
        Shape::RotRect { pos: Vec2::new(0, 0), w_h: Vec2::new(10, 20), rot: 100 + HALF_PI }
    );
    let mut c = Shape::Circle { pos: Vec2::new(5, 6), r: 7 };
    c.rotate_90();
    assert_eq!(c, Shape::Circle { pos: Vec2::new(5, 6), r: 7 });
}

#[test]
fn surface_angles_are_cardinal_for_boxes() {
    let r = Shape::Rect { pos: Vec2::new(0, 0), w_h: Vec2::new(100, 100) };
    assert_eq!(r.surface_angle(Vec2::new(60, 10)), 0);
    assert_eq!(r.surface_angle(Vec2::new(-60, 10)), PI);
    assert_eq!(r.surface_angle(Vec2::new(10, 60)), -HALF_PI);
    assert_eq!(r.surface_angle(Vec2::new(10, -60)), HALF_PI);
}

#[test]
fn surface_angle_is_radial_for_circles() {
    let c = Shape::Circle { pos: Vec2::new(0, 0), r: 500 };
    assert_eq!(c.surface_angle(Vec2::new(400, 0)), 0);
    assert_eq!(c.surface_angle(Vec2::new(0, 400)), HALF_PI);
    assert_eq!(c.surface_angle(Vec2::new(-400, 0)), PI);
}

#[test]
fn rotated_box_surface_carries_rotation() {
    let rr = Shape::RotRect { pos: Vec2::new(0, 0), w_h: Vec2::new(100, 100), rot: HALF_PI };
    // The quarter-turned frame maps (60, 10) to (10, -60): the nearest local
    // edge faces +HALF_PI, and the box's own rotation is added back.
    assert_eq!(rr.surface_angle(Vec2::new(60, 10)), HALF_PI + HALF_PI);
}

#[test]
fn container_side_is_the_standard_wall() {
    let s = Shape::container_side(4096, -4096);
    assert_eq!(s, Shape::Rect { pos: Vec2::new(4096, -4096), w_h: Vec2::new(130328, 64414) });
    assert!(s.intersects(Vec2::new(4096, -4096)));
}
