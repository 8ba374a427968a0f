[package]
name = "undercity"
version = "0.1.0"
edition = "2021"
publish = false

[dependencies]
rand = { version = "0.8", features = ["small_rng"] }
anyhow = "1"
ron = "0.8"
serde = { version = "1", features = ["derive"] }
linkme = "0.3"
