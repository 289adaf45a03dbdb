[package]
name = "muxr"
version = "0.1.0"
edition = "2021"
publish = false

[dependencies]
bincode = "1.3"
bytes = "0.4"
crossbeam-channel = "0.5"
daemonize = "0.5"
error-chain = "0.12"
futures-util = "0.3"
lazy_static = "1"
ndarray = { version = "0.15", features = ["serde"] }
nix = { version = "0.29", features = ["fs", "process", "term"] }
serde = { version = "1", features = ["derive"] }
static_assertions = "1"
termion = "1.5"
tokio = { version = "1", features = ["full"] }
tokio-io = "0.1"
vte = "0.3"
