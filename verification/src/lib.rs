//! Simulation core of a tile-based mining/automation game: a terrain grid
//! with procedural generation and fog-of-war, an incrementally maintained
//! hierarchical pathfinding index over that grid, and a per-tick machine
//! power-distribution resolver.

pub mod dir;
pub mod gen;
pub mod grid;
pub mod holevec;
pub mod machine;
pub mod material;
pub mod pathing;
pub mod pos;
pub mod power;
pub mod world;
