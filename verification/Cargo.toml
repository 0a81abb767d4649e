[package]
name = "s7_tags"
version = "0.1.0"
edition = "2021"
publish = false

[dependencies]
serde = { version = "*", features = ["derive"] }
serde_json = "*"
snap7-sys = "*"
log = "*"
env_logger = "*"
chrono = "*"
