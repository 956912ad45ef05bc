[package]
name = "from_sparse"
version = "0.1.0"
edition = "2021"
publish = false

[dependencies]
cudarc = { version = "0.9", features = ["ci-check"] }
