[package]
name = "p2p_core"
version = "0.1.0"
edition = "2021"
publish = false

[dependencies]
chrono = "0.4"
rand = "0.8"
http = "0.2"
hyper = { version = "0.14", features = ["client", "http1", "tcp"] }
hyper-rustls = "0.23"
hyper-timeout = "0.4"
tokio = { version = "1", features = ["rt", "net", "time"] }
serde = { version = "1", features = ["derive"] }
serde_json = "1"
socks = "0.3"
tor-stream = "*"
crossbeam = "0.8"
