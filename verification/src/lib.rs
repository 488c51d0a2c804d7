//! Procedural dungeon layout generation: non-overlapping rectangular rooms on
//! an integer grid, connected by randomly walked corridors, with a verified
//! connectivity check and a bounded retry loop around the whole pipeline.

pub mod geom;
pub mod rng;
pub mod params;
pub mod rooms;
pub mod corridors;
pub mod connect;
pub mod generate;
