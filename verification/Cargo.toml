[package]
name = "voxel_world"
version = "0.1.0"
edition = "2021"
publish = false

[dependencies]
glium = "0.30"
nalgebra = "0.29"
notify = "4"
