[package]
name = "orderbook_combiner"
version = "0.1.0"
edition = "2021"
publish = false

[dependencies]
itertools = "0.10"
reqwest = { version = "0.11", default-features = false, features = ["rustls-tls"] }
serde = { version = "1", features = ["derive"] }
serde_json = "1"
tokio = { version = "1", features = ["rt-multi-thread", "macros", "sync", "time"] }
tungstenite = { version = "0.18", features = ["rustls-tls-webpki-roots"] }
url = "2"
