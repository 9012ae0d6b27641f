[package]
name = "rctool-core"
version = "0.1.0"
edition = "2021"
publish = false

[dependencies]
anyhow = "1"
clap = { version = "4", features = ["derive"] }
env_logger = "*"
log = "0.4"
tokio = { version = "1", features = ["full"] }
futures-lite = "*"
tokio-util = "*"
bluest = "*"
cpal = "*"
ringbuf = "0.4"
hound = "3"
uuid = "1"
serde = { version = "1", features = ["derive"] }
serde_json = "1"
core-foundation = "*"
core-foundation-sys = "*"
