[package]
name = "minichain"
version = "0.1.0"
edition = "2021"
publish = false

[dependencies]
sled = "0.34"
sha2 = "0.10"
hex = "0.4"
k256 = "0.13"
serde = { version = "1", features = ["derive"] }
axum = "*"
tokio = { version = "1", features = ["full"] }
clap = { version = "4", features = ["derive"] }
base64 = "0.22"
chacha20poly1305 = "0.10"
pbkdf2 = "0.12"
