[package]
name = "atomic_mesh"
version = "0.1.0"
edition = "2021"
publish = false

[dependencies]
bincode = "1.3"
hex = "0.4"
ring = "0.17"
serde_json = "1"
xxhash-rust = { version = "0.8", features = ["xxh3"] }
async-trait = "0.1"
axum = { version = "0.8", features = ["ws"] }
clap = { version = "4", features = ["derive"] }
dotenvy = "0.15"
futures-util = "0.3"
open = "5"
quinn = "0.11"
rcgen = "0.13"
reqwest = { version = "0.12", default-features = false, features = ["rustls-tls", "json"] }
rustls = "0.23"
serde = { version = "1", features = ["derive"] }
thiserror = "2"
tokio = { version = "1", features = ["full"] }
tokio-tungstenite = { version = "0.24", features = ["rustls-tls-webpki-roots"] }
tracing = "0.1"
tracing-subscriber = { version = "0.3", features = ["env-filter"] }
