//! Rayworld: the grid, wall, terrain, mining, visibility, wetland and group rules of
//! a colony simulation, with their contracts.

pub mod bits;
pub mod grid;
pub mod walls;
pub mod thin_walls;
pub mod roof;
pub mod fluid;
pub mod mining;
pub mod terrain;
pub mod fog;
pub mod comms;
pub mod fire;
pub mod audio;
pub mod item_defs;
pub mod creature_defs;
pub mod materials;
pub mod block_defs;
pub mod cards;
pub mod wgsl;
pub mod buildings;
pub mod wetland;
