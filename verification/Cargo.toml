[package]
name = "electrum_streaming_client"
version = "0.1.0"
edition = "2021"
publish = false

[dependencies]
bitcoin = { version = "0.32", features = ["serde"] }
rustls = "0.23"
serde = { version = "1", features = ["derive"] }
serde_json = "1"
tokio = { version = "1", features = ["net", "time", "io-util"] }
tokio-rustls = "0.26"
webpki-roots = "1"
