[package]
name = "ultira"
version = "0.1.0"
edition = "2021"
publish = false

[dependencies]
chrono = { version = "*", features = ["serde"] }
clap = { version = "*", features = ["derive"] }
nalgebra = "*"
serde = { version = "*", features = ["derive"] }
splitty = "*"
toml = "*"
