[package]
name = "can_decoder"
version = "0.1.0"
edition = "2021"
publish = false

[dependencies]
anyhow = "*"
clap = { version = "*", features = ["derive"] }
j1939-async = "=0.1.0-alpha1"
owo-colors = "*"
regex = "*"
serde = { version = "*", features = ["derive"] }
serde_json = "*"
serde_yaml = "*"
socketcan = "*"
tokio = { version = "*", features = ["full"] }
