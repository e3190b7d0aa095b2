[package]
name = "terrain_streaming"
version = "0.1.0"
edition = "2021"
publish = false

[dependencies]
rand = "0.4"
noise = { version = "0.9", default-features = false, features = ["std"] }
cgmath = "0.18"
log = "0.4"
