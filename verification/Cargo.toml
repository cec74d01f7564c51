[package]
name = "vivrt"
version = "0.1.0"
edition = "2021"
publish = false

[dependencies]
flate2 = "=1.1.10"
libloading = "=0.8.9"
anyhow = "=1.0.104"
cudarc = { version = "=0.19.10", features = ["cuda-12080"] }
