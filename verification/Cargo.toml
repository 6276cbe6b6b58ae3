[package]
name = "cubetracer"
version = "0.1.0"
edition = "2021"
publish = false

[dependencies]
ash = "0.31"
gl = "0.14"
glutin = "0.24"
image = "0.23"
nalgebra = "0.32"
