[package]
name = "albatross"
version = "0.1.0"
edition = "2021"
publish = false

[dependencies]
futures = "=0.3.34"
libp2p = { version = "=0.57.1", default-features = false }
log = "=0.4.34"
serde = { version = "=1.0.229", features = ["derive"] }
tokio = { version = "=1.54.1", default-features = false, features = ["net"] }
tokio-tungstenite = { version = "=0.30.0", default-features = false, features = ["stream"] }
tungstenite = { version = "=0.30.0", default-features = false }
