[package]
name = "online_judge"
version = "0.1.0"
edition = "2021"
publish = false

[dependencies]
chrono = "*"
serde = { version = "*", features = ["derive"] }
serde_json = "*"
temp-dir = "*"
wait-timeout = "*"
