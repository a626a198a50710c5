[package]
name = "bubble_bridge"
version = "0.1.0"
edition = "2021"
publish = false

[dependencies]
rand = "0.8"
uuid = { version = "1", features = ["v4"] }
sha2 = "0.10"
base64 = "0.22"
prost = "0.13"
plist = "1"
serde = { version = "1", features = ["derive"] }
anyhow = "1"
log = "0.4"
tokio = { version = "1", features = ["sync", "rt", "macros", "fs", "time"] }
