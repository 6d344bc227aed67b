[package]
name = "dircmp"
version = "0.1.0"
edition = "2021"
publish = false

[dependencies]
anyhow = "=1.0.104"
crossterm = "=0.28.1"
dirs = "=5.0.1"
hmac-sha256 = "1"
ratatui = "=0.29.0"
rayon = "=1.12.0"
serde = { version = "=1.0.229", features = ["derive"] }
toml = "=0.8.23"
unicode-width = "=0.2.0"
walkdir = "=2.5.0"
