[package]
name = "preers"
version = "0.1.0"
edition = "2021"
publish = false

[dependencies]
libp2p = { version = "=0.56.0", features = ["tokio", "tcp", "quic", "dns", "noise", "yamux", "relay", "rendezvous", "dcutr", "identify", "ping", "ed25519", "macros"] }
libp2p-stream = "=0.4.0-alpha"
tokio = { version = "=1.53.2", features = ["rt-multi-thread", "macros", "net", "io-util", "sync", "time"] }
tokio-util = { version = "=0.7.19", features = ["compat"] }
futures = "=0.3.34"
axum = "=0.8.9"
serde = { version = "=1.0.229", features = ["derive"] }
rusqlite = { version = "=0.40.2", features = ["bundled"] }
clap = { version = "=4.6.7", default-features = false, features = ["std", "derive", "help", "usage"] }
tracing = "=0.1.44"
tracing-subscriber = { version = "=0.3.23", default-features = false, features = ["fmt", "std"] }
