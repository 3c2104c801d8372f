[package]
name = "ashmaize-solver"
version = "0.1.0"
edition = "2021"
publish = false

[dependencies]
clap = { version = "=4.6.7", features = ["derive"] }
rayon = "=1.12.0"
cudarc = { version = "=0.12.1", default-features = false, features = ["std", "driver", "nvrtc", "cuda-12060"] }
