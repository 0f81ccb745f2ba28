[package]
name = "maguro"
version = "0.1.0"
edition = "2021"
publish = false

[dependencies]
serde_urlencoded = "0.7"
serde = { version = "1", features = ["derive"] }
serde_json = "1"
hyper = { version = "0.14", features = ["client", "http1", "tcp"] }
hyper-tls = "0.5"
tokio = { version = "1", features = ["fs", "io-util", "rt", "rt-multi-thread", "macros"] }
clap = "2"
log = "0.4"
chrono = "0.4"
mime = "0.3"
