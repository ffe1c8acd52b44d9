[package]
name = "bw24_engine"
version = "0.1.0"
edition = "2021"
publish = false

[dependencies]
libc = "0.2"
cudarc = { version = "0.17", default-features = false, features = ["std", "driver", "dynamic-loading", "cuda-12080"] }
