[package]
name = "voxel_octree"
version = "0.1.0"
edition = "2021"
publish = false

[dependencies]
vecmath = "=1.0.0"
quaternion = "=1.0.0"
rand = "=0.8.8"
png = "=0.17.16"
bytemuck = { version = "=1.25.2", features = ["derive"] }
vulkano = "=0.30.0"
vulkano-shaders = "=0.30.0"
vulkano-win = "=0.30.0"
winit = "0.26"
