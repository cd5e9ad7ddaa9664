[package]
name = "glyph_anchor"
version = "0.2.0"
edition = "2021"
publish = false

[dependencies]
anyhow = "1.0"
base64 = "0.22"
ciborium = "0.2"
dashmap = "6.0"
futures = "0.3"
hex = "0.4"
hmac = "0.12"
libp2p = { version = "0.54", features = ["tcp", "quic", "dns", "yamux", "noise", "kad", "relay", "dcutr", "request-response", "cbor", "identify", "ping", "macros", "tokio", "ed25519"] }
mimalloc = { version = "0.1", default-features = false }
rand = "0.8"
redb = "2.1"
reqwest = { version = "0.12", default-features = false, features = ["rustls-tls"] }
serde = { version = "1.0", features = ["derive"] }
serde_json = "1.0"
sha2 = "0.10"
tokio = { version = "1.38", features = ["full"] }
tracing = "0.1"
tracing-subscriber = { version = "0.3", features = ["json"] }
