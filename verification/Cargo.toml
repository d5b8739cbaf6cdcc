[package]
name = "distenv"
version = "0.1.0"
edition = "2021"
publish = false

[dependencies]
axoasset = { version = "*", default-features = false }
camino = "*"
miette = "*"
serde = { version = "*", features = ["derive"] }
