[package]
name = "l0"
version = "0.1.0"
edition = "2021"
publish = false

[dependencies]
half = "2"
candle-core = { version = "0.9", default-features = false }
candle-nn = { version = "0.9", default-features = false }
tokenizers = { version = "0.21", default-features = false, features = ["fancy-regex"] }
ndarray = "0.16"
ndarray-linalg = { version = "0.17", default-features = false }
cudarc = { version = "0.12", default-features = false, features = ["std", "driver", "nvrtc", "cuda-12020", "dynamic-linking"] }
