[package]
name = "syncweb_core"
version = "0.1.0"
edition = "2021"
publish = false

[dependencies]
hex = "=0.4.3"
ed25519-dalek = "=2.2.0"
blake3 = { version = "=1.8.7", features = ["pure"] }
globset = "=0.4.21"
regex = "=1.13.1"
base32 = "=0.5.1"
uuid = { version = "=1.29.0", features = ["v4"] }
rand = "=0.9.5"
serde = { version = "=1.0.229", features = ["derive"] }
serde_json = "=1.0.154"
iroh-base = { version = "=1.4.1", default-features = false, features = ["key"] }
rusqlite = "=0.41.1"
libc = "=0.2.191"
