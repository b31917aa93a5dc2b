[package]
name = "windash"
version = "0.1.0"
edition = "2021"
publish = false

[dependencies]
chrono = "0.4"
serde = { version = "1", features = ["derive"] }
serde_json = "1"
sysinfo = "0.32"
tempfile = "3"
log = "0.4"
env_logger = "0.11"
