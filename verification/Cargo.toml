[package]
name = "rustcraft"
version = "0.1.0"
edition = "2021"
publish = false

[dependencies]
hashbrown = "0.15"
cgmath = "0.18"
fastnoise-lite = "1"
rayon = "1"
rand = "0.8"
bytemuck = { version = "1", features = ["derive"] }
log = "0.4"
simple_logger = "5"
anyhow = "1"
futures = "0.3"
image = { version = "0.25", default-features = false, features = ["png"] }
wgpu = "27"
winit = "0.30"
tcmalloc-better = "*"
