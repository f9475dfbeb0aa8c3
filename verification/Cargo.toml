[package]
name = "ethserv"
version = "0.1.0"
edition = "2021"
publish = false

[dependencies]
alloy = { version = "=0.9.2", default-features = false, features = ["std", "provider-ws", "pubsub", "rpc-types", "signer-local", "signer-mnemonic"] }
anyhow = "=1.0.104"
axum = "=0.7.9"
chacha20poly1305 = "=0.10.1"
dotenv = "=0.15.0"
futures-util = "=0.3.34"
hex = "=0.4.3"
log = "=0.4.34"
rand = "=0.8.8"
ring = "=0.17.14"
rusqlite = { version = "=0.32.1", features = ["bundled"] }
serde = { version = "=1.0.219", features = ["derive"] }
serde_json = "=1.0.143"
sha2 = "=0.10.9"
tokio = { version = "=1.54.1", features = ["rt-multi-thread", "macros", "sync", "net"] }
zmq = "=0.10.0"
