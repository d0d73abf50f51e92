[package]
name = "simgate"
version = "0.1.0"
edition = "2021"
publish = false

[dependencies]
rand = "0.8"
serde = { version = "1", features = ["derive"] }
serde_json = "1"
futures = "0.3"
async-std = "1"
async-tungstenite = { version = "*", features = ["async-std-runtime"] }
tide = "0.16"
