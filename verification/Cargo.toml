[package]
name = "rust_ray_tracer"
version = "0.1.0"
edition = "2021"
publish = false

[dependencies]
rand = { version = "0.8", features = ["small_rng"] }
clap = { version = "4", features = ["derive"] }
image = "0.24"
serde = { version = "1", features = ["derive"] }
serde_yaml = "0.9"
obj-rs = "0.7"
rayon = "1"
