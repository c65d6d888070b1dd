[package]
name = "peer_chat"
version = "0.1.0"
edition = "2021"
publish = false

[dependencies]
x25519-dalek = "2"
sha2 = "0.10"
chacha20poly1305 = "0.10"
rand = "0.8"
base64 = "0.22"
serde = { version = "1", features = ["derive"] }
serde_json = "1"
tokio = { version = "1", features = ["full"] }
anyhow = "1"
dirs = "5"
