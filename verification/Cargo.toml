[package]
name = "navi"
version = "0.1.0"
edition = "2021"
publish = false

[dependencies]
base64 = "0.22"
tiktoken-rs = "0.12"
rustc-hash = "*"
anyhow = "1"
hound = "3.5"
serde = { version = "1", features = ["derive"] }
serde_json = "1"
