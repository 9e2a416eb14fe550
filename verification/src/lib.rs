//! Tile-grid world logic: chunked tile storage, terrain generation from
//! column heights, block placement, grid collision and chunk meshing.

pub mod tiles;
pub mod world;
pub mod mesh;
pub mod player;
