[package]
name = "untabify"
version = "0.1.0"
edition = "2021"
publish = false

[dependencies]
clap = { version = "4", features = ["derive"] }
dirs = "*"
glob = "0.3"
serde = { version = "1", features = ["derive"] }
serde_json = "1"
walkdir = "2"
