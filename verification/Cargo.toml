[package]
name = "cassette_proxy"
version = "0.1.0"
edition = "2021"
publish = false

[dependencies]
hyper = { version = "=0.14.32", features = ["full"] }
hyper-tls = "=0.5.0"
tokio = { version = "1", features = ["rt", "sync", "net", "time", "io-util"] }
