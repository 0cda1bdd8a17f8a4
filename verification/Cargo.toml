[package]
name = "dxvk_cache"
version = "0.1.0"
edition = "2021"
publish = false

[dependencies]
sha1 = "0.10"
clap = { version = "*", features = ["derive"] }
env_logger = "*"
log = "*"
