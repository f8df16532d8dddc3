[package]
name = "wavegen_relay"
version = "0.1.0"
edition = "2021"
publish = false

[dependencies]
url-escape = "*"
tokio = { version = "*", features = ["rt-multi-thread", "macros", "sync", "time", "net"] }
axum = "*"
anyhow = "*"
chrono = "*"
indicatif = "*"
