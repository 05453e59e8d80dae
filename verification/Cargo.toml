[package]
name = "abp_core"
version = "0.1.0"
edition = "2021"
publish = false

[dependencies]
lofty = "0.18"
mp4 = "0.14"
walkdir = "2"
serde = { version = "1", features = ["derive"] }
serde_json = "1"
