[package]
name = "autosub"
version = "0.1.0"
edition = "2021"
publish = false

[dependencies]
unicode-segmentation = "1"
sha2 = "0.10"
dirs = "5"
serde = { version = "1", features = ["derive"] }
serde_json = "1"
log = "0.4"
env_logger = "0.11"
thiserror = "1"
tokio = { version = "1", features = ["process", "io-util", "time", "fs", "sync", "rt", "macros"] }
