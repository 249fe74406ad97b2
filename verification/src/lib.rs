//! Tactical geometry and decision core for an arena-combat vehicle agent.
//!
//! Every length, coordinate, angle and time in this crate is a fixed-point
//! integer: the real quantity multiplied by [`fx::ONE`] and truncated.
//! Angles are fixed-point radians; [`fx::PI`] plays the role of the real
//! constant pi.

pub mod fx;
pub mod trig;
pub mod vec2;
pub mod shape;
pub mod map;
pub mod state;
pub mod trajectory;
pub mod env;
pub mod wire;
pub mod controller;
