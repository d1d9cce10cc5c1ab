[package]
name = "wgpu_engine"
version = "0.1.0"
edition = "2021"
publish = false

[dependencies]
naga = "0.12"
wgpu = "0.16"
winit = "0.28"
glam = "*"
bytemuck = { version = "1", features = ["derive"] }
pollster = "0.3"
env_logger = "*"
