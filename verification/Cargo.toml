[package]
name = "ray_tracing_one_weekend"
version = "0.1.0"
edition = "2021"
publish = false

[dependencies]
rand = { version = "0.8", features = ["small_rng"] }
anyhow = "1"
clap = { version = "4", features = ["derive"] }
image = "0.24"
rayon = "1"
