[package]
name = "unidpp-registry"
version = "0.3.0"
edition = "2021"
publish = false

[dependencies]
axum = { version = "=0.8.9", default-features = false, features = ["http1", "query", "tokio"] }
ed25519-dalek = "=2.2.0"
serde_json = "=1.0.154"
sha2 = "=0.10.9"
tokio = { version = "=1.54.1", features = ["macros", "net", "rt-multi-thread", "sync"] }
