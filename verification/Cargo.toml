[package]
name = "tunnel_proxy"
version = "0.1.0"
edition = "2021"
publish = false

[dependencies]
byteorder = "1"
bytes = "1"
tokio = { version = "1", features = ["rt-multi-thread", "net", "io-util", "sync"] }
tokio-util = { version = "0.7", features = ["codec"] }
futures = "0.3"
