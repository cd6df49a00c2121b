[package]
name = "recursive_gaussian"
version = "0.1.0"
edition = "2021"
publish = false

[dependencies]
aligned = "0.4"
nalgebra = { version = "0.32", default-features = false, features = ["std"] }
wide = "0.7"
