[package]
name = "relay_map"
version = "0.1.0"
edition = "2021"
publish = false

[dependencies]
anyhow = "1"
maxminddb = "*"
serde = { version = "1", features = ["derive"] }
serde_json = "1"
ureq = "2"
