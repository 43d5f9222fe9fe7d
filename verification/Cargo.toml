[package]
name = "nporter"
version = "0.1.0"
edition = "2021"
publish = false

[dependencies]
anyhow = "1"
clap = { version = "4", features = ["derive"] }
crossterm = "0.28"
prometheus = { version = "0.13", default-features = false }
ratatui = "0.29"
rustables = "0.8"
serde = { version = "1", features = ["derive"] }
toml = "0.8"
