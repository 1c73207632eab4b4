[package]
name = "handterm"
version = "0.1.0"
edition = "2021"
publish = false

[dependencies]
unicode-width = "0.2"
flate2 = "1"
png = "0.17"
anyhow = "1"
bincode = "1"
serde = { version = "1", features = ["derive"] }
toml = "0.8"
dirs = "5"
