[package]
name = "stampede"
version = "0.1.0"
edition = "2021"
publish = false

[dependencies]
anyhow = "1"
clap = { version = "4", features = ["derive"] }
crossbeam-channel = "0.5"
env_logger = "0.11"
ffmpeg-next = "*"
figment = { version = "0.10", features = ["env", "yaml"] }
log = "0.4"
serde = { version = "1", features = ["derive"] }
thiserror = "2"
toml = "*"
