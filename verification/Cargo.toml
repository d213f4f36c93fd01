[package]
name = "pollen"
version = "0.1.0"
edition = "2021"
publish = false

[dependencies]
similar = "*"
serde = { version = "*", features = ["derive"] }
serde_json = "*"
serde_yaml = "*"
seahorse = "*"
colored = "*"
walkdir = "*"
fs_extra = "*"
