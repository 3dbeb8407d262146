[package]
name = "rlg"
version = "0.1.0"
edition = "2021"
publish = false

[dependencies]
bevy = { version = "0.12", default-features = false }
clap = { version = "4", features = ["derive"] }
imagesize = "0.12"
serde = { version = "1", features = ["derive"] }
serde_json = "1"
walkdir = "2"
