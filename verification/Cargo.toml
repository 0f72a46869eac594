[package]
name = "image2"
version = "0.1.0"
edition = "2021"
publish = false

[dependencies]
half = "*"
lazy_static = "1"
rawloader = "*"
serde = { version = "1", features = ["derive"] }
