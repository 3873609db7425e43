[package]
name = "daggboard"
version = "0.1.0"
edition = "2021"
publish = false

[dependencies]
sha2 = "=0.11.0"
sha3 = "=0.12.0"
hex = "=0.4.3"
axum = "=0.8.9"
serde = { version = "=1.0.229", features = ["derive"] }
serde_json = "=1.0.151"
tokio = { version = "=1.53.2", features = ["rt-multi-thread", "macros", "signal", "time", "net"] }
reqwest = { version = "*", default-features = false, features = ["json", "rustls-tls"] }
