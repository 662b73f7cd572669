[package]
name = "cwpack_rs"
version = "0.1.0"
edition = "2021"
publish = false

[dependencies]
rmp = "0.8"
