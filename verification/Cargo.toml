[package]
name = "flocksim"
version = "0.1.0"
edition = "2021"
publish = false

[dependencies]
spade = "1.8"
rand = "0.7"
nalgebra = "0.19"
serde = { version = "1", features = ["derive"] }
serde_json = "1"
futures = "0.3"
futures-channel = "0.3"
futures-util = "0.3"
tokio = { version = "0.2", features = ["full"] }
tokio-tungstenite = "0.10"
tungstenite = "0.10"
