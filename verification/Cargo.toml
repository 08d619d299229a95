[package]
name = "affine"
version = "0.1.0"
edition = "2021"
publish = false

[dependencies]
candle-core = "=0.10.2"
candle-nn = "=0.10.2"
hf-hub = { version = "=0.5.0", default-features = false, features = ["ureq"] }
