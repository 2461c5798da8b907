[package]
name = "babel_kad"
version = "0.1.0"
edition = "2021"
publish = false

[dependencies]
rand = "0.8"
slotmap = "1"
bytes = "1"
log = "0.4"
env_logger = "0.10"
anyhow = "1"
thiserror = "1"
crossbeam = "0.8"
clap = { version = "4", features = ["derive"] }
tokio = { version = "1", features = ["rt-multi-thread", "net", "io-util", "io-std", "time", "sync", "macros", "signal"] }
