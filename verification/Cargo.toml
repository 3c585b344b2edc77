[package]
name = "shape_anneal"
version = "0.1.0"
edition = "2021"
publish = false

[dependencies]
rand = { version = "0.7", features = ["small_rng"] }
image = { version = "0.23", default-features = false, features = ["png", "jpeg"] }
minifb = "0.19"
