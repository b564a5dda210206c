[package]
name = "darkfi"
version = "0.1.0"
edition = "2021"
publish = false

[dependencies]
pasta_curves = "0.5"
blake2b_simd = "1"
blake3 = "1"
rand = "0.8"
sled = "0.34"
chrono = "0.4"
colored = "2"
