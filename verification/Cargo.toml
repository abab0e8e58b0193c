[package]
name = "athernet"
version = "0.1.0"
edition = "2021"
publish = false

[dependencies]
anyhow = "1"
bitvec = "1"
clap = { version = "4", features = ["derive"] }
cpal = "0.15"
env_logger = "0.10"
hound = "3"
log = "0.4"
rand = { version = "0.8", features = ["small_rng"] }
ringbuffer = "0.15"
rodio = "0.17"
serde = { version = "1", features = ["derive"] }
thiserror = "1"
tokio = { version = "1", features = ["rt", "rt-multi-thread", "macros", "sync", "time", "net"] }
tokio-stream = "0.1"
toml = "0.8"
