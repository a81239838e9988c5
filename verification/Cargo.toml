[package]
name = "nautilus_envelope"
version = "0.1.0"
edition = "2021"
publish = false

[dependencies]
sha2 = "0.10"
serde = { version = "1", features = ["derive"] }
serde_json = "1"
axum = "*"
tokio = { version = "1", features = ["rt-multi-thread", "macros", "net"] }
