//! A sparse voxel octree over power-of-two cubes, with its flat-buffer encoding.

pub mod aabc;
pub mod camera;
pub mod contents;
pub mod cube;
pub mod encoding;
pub mod graphics;
pub mod octree;
pub mod voxel;
