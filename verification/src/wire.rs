//! The wire-format records the transport layer exchanges with the game
//! server. Their numeric fields arrive as text; parsing them into
//! fixed-point values is the transport layer's job, so these types only
//! carry the data through.

use vstd::prelude::*;
use std::collections::HashMap;

verus! {

/// A wire field value: either text or a flag.
#[derive(Debug, Clone)]
pub enum DataType {
    Str(String),
    Bool(bool),
}

/// A projectile as the server reports it.
#[derive(Debug, Clone)]
pub struct Projectile {
    pub x: String,
    pub y: String,
    pub vx: i32,
    pub vy: i32,
}

/// One vehicle as the server reports it.
#[derive(Debug, Clone)]
pub struct TankData {
    pub x: String,
    pub y: String,
    pub r: String,
    pub can_fire: bool,
}

/// One full game snapshot as the server reports it.
#[derive(Debug, Clone)]
#[allow(non_snake_case)]
pub struct GameData {
    pub tankA: TankData,
    pub tankB: TankData,
    pub projectiles: HashMap<String, Projectile>,
}

} // verus!
