[package]
name = "knot"
version = "0.1.0"
edition = "2021"
publish = false

[dependencies]
sha2 = "0.10"
chrono = "0.4"
toml = "0.8"
serde = { version = "1", features = ["derive"] }
serde_json = "1"
anyhow = "1"
clap = { version = "4", features = ["derive"] }
notify = "6"
tempfile = "3"
log = "0.4"
env_logger = "0.11"
regex = "1"
