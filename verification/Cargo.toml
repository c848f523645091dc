[package]
name = "stok_core"
version = "0.1.0"
edition = "2021"
publish = false

[dependencies]
burn = { version = "=0.19.1", default-features = false, features = ["ndarray"] }
rand = "=0.8.8"
