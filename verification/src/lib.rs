//! An arena-combat game played on an integer grid: the authoritative
//! simulation of ships and bullets, the client's model of the world as it
//! reconstructs it from snapshots, and the behaviours and conditions that
//! decide a ship's next command.

pub mod geom;
pub mod models;
pub mod picking;
pub mod game;
pub mod analyzer;
pub mod behavior;
pub mod strategy;
pub mod session;
