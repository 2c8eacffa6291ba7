[package]
name = "rudder-package"
version = "0.1.0"
edition = "2021"
publish = false

[dependencies]
anyhow = "=1.0.104"
ar = "=0.9.0"
clap = { version = "=4.6.7", features = ["derive"] }
env_logger = "=0.10.2"
flate2 = "=1.1.10"
log = "=0.4.34"
lzma-rs = "=0.3.0"
serde_json = { version = "=1.0.154", features = ["preserve_order"] }
tar = "=0.4.46"

[dev-dependencies]
regex = "=1.13.1"
