//! Voxel world core: chunk storage, light propagation, meshing, collision
//! and ray casting, with their behaviour stated in contracts and proved.
//!
//! - `chunk`, `chunk_manager`: block and light storage and world/local coordinates.
//! - `light`: breadth-first flood fill of sky and block light.
//! - `model`, `mesh`: block geometry, face culling, ambient occlusion and quads.
//! - `collision`, `raycast`: fixed-point boxes, movement and ray queries.

pub mod animation;
pub mod blocks;
pub mod chunk;
pub mod chunk_manager;
pub mod collision;
pub mod color;
pub mod face;
pub mod light;
pub mod mesh;
pub mod model;
pub mod raycast;
