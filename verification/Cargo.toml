[package]
name = "demo_recorder"
version = "0.1.0"
edition = "2021"
publish = false

[dependencies]
serde = { version = "*", features = ["derive"] }
serde_json = "*"
dirs = "*"
pollster = "*"
bytemuck = { version = "*", features = ["derive"] }
wgpu = "22"
video-rs = "*"
