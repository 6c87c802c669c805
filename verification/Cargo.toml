[package]
name = "vitals_cosmic"
version = "0.1.0"
edition = "2021"
publish = false

[dependencies]
anyhow = "1"
env_logger = "0.11"
futures-util = "0.3"
log = "0.4"
tokio = { version = "1", features = ["rt-multi-thread", "sync", "time", "macros"] }
toml = "0.8"
zbus = { version = "5", default-features = false, features = ["tokio"] }
