[package]
name = "xettacast"
version = "0.1.0"
edition = "2021"
publish = false

[dependencies]
bytemuck = { version = "1", features = ["derive"] }
fontdue = "0.8"
image = { version = "0.24", default-features = false, features = ["png"] }
log = "0.4"
rand = "0.8"
rayon = "1"
serde_yaml = "0.9"
wgpu = "0.17"
winit = { version = "0.28", default-features = false, features = ["x11"] }
