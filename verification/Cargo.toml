[package]
name = "meta_overlayfs"
version = "0.1.0"
edition = "2021"
publish = false

[dependencies]
rustix = { version = "*", features = ["mount", "fs", "process"] }
procfs = "*"
anyhow = "*"
log = "*"
env_logger = "*"
