[package]
name = "herdr_palette"
version = "0.1.0"
edition = "2021"
publish = false

[dependencies]
anyhow = "=1.0.104"
clap = { version = "=4.6.7", features = ["derive"] }
crossterm = "=0.29.0"
dirs = "=6.0.0"
fuzzy-matcher = "=0.3.7"
herdr-pretty-which = "=0.1.5"
ratatui = "=0.30.2"
serde_json = "=1.0.154"
