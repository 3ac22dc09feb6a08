//! Selection, command and movement logic of a small real-time-strategy game,
//! over a fixed-point model of the ground plane.

pub mod command;
pub mod geometry;
pub mod selection;
pub mod unit;
pub mod world;
