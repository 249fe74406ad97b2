use std::collections::HashMap;
use r_core::wire::{DataType, GameData, Projectile, TankData};

#[test]
fn wire_records_carry_fields() {
    let t = TankData {
        x: "1.5".to_string(),
        y: "2".to_string(),
        r: "90".to_string(),
        can_fire: true,
    };
    let p = Projectile { x: "3".to_string(), y: "4".to_string(), vx: 5, vy: -6 };
    let mut projectiles = HashMap::new();
    projectiles.insert("p0".to_string(), p);
    let g = GameData { tankA: t.clone(), tankB: t, projectiles };
    assert_eq!(g.tankA.x, "1.5");
    assert!(g.tankB.can_fire);
    assert_eq!(g.projectiles.get("p0").unwrap().vx, 5);
    match DataType::Bool(true) {
        DataType::Bool(b) => assert!(b),
        DataType::Str(_) => panic!("expected a flag"),
    }
}
