[package]
name = "herdr-pluck"
version = "0.1.0"
edition = "2021"
publish = false

[dependencies]
anyhow = "1"
clap = { version = "4", features = ["derive"] }
crossterm = "*"
regex = "1"
serde = { version = "1", features = ["derive"] }
serde_json = "1"
toml = "*"
unicode-width = "*"
which = "*"
