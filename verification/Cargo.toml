[package]
name = "wooshh"
version = "0.4.0"
edition = "2021"
publish = false

[dependencies]
humantime = "2"
clap = { version = "4", features = ["derive"] }
serde = { version = "1", features = ["derive"] }
serde_json = "1"
toml = "0.8"
