[package]
name = "wavepool"
version = "0.1.0"
edition = "2021"
publish = false

[dependencies]
anyhow = "1"
chrono = "0.4"
nalgebra = "*"
polars = { version = "*", default-features = false, features = ["parquet"] }
serde = { version = "1", features = ["derive"] }
toml = "*"
