[package]
name = "snake_evo"
version = "0.1.0"
edition = "2021"
publish = false

[dependencies]
ahash = "=0.8.12"
anyhow = "1"
bytemuck = { version = "1", features = ["derive"] }
candle-core = "*"
candle-nn = "*"
pixels = "0.13"
pollster = "0.3"
rand = { version = "=0.8.8", features = ["small_rng"] }
ratatui = "0.23"
rayon = "=1.12.0"
serde = { version = "=1.0.229", features = ["derive"] }
wgpu = "0.16"
winit = "0.28"
winit_input_helper = "0.14"
