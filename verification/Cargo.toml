[package]
name = "rchat"
version = "0.1.0"
edition = "2021"
publish = false

[dependencies]
anyhow = "1"
argon2 = { version = "0.5", features = ["std"] }
base64 = "0.22"
chacha20poly1305 = { version = "0.10", features = ["std"] }
directories = "5"
ed25519-dalek = { version = "2", features = ["rand_core"] }
fastcdc = "3"
flate2 = "1"
hex = "0.4"
hostname = "0.4"
local-ip-address = "0.6"
rand = "0.8"
reqwest = { version = "0.12", default-features = false, features = ["json"] }
rusqlite = { version = "0.37", features = ["bundled"] }
serde = { version = "1", features = ["derive"] }
serde_json = "1"
sha2 = "0.10"
tokio = { version = "1", features = ["rt-multi-thread", "macros", "time", "sync"] }
x25519-dalek = { version = "2", features = ["static_secrets"] }
