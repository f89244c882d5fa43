[package]
name = "netcode"
version = "0.1.0"
edition = "2021"
publish = false

[dependencies]
anyhow = "1"
chrono = "0.4"
ctrlc = "3"
fern = "0.6"
flexstr = "0.9"
glam = "0.24"
log = "0.4"
quinn = "0.10"
rcgen = "0.11"
rustls = { version = "0.21", features = ["dangerous_configuration", "quic"] }
tokio = { version = "1", features = ["rt", "rt-multi-thread", "sync", "macros"] }
