[package]
name = "gomoku"
version = "0.1.0"
edition = "2021"
publish = false

[dependencies]
rand = "=0.8.8"
strum = { version = "0.24", features = ["derive"] }
ellipsoid = "=0.3.1"
