[package]
name = "e131_divider"
version = "0.1.0"
edition = "2021"
publish = false

[dependencies]
axum = "0.6"
gumdrop = "0.8"
serde = { version = "1", features = ["derive"] }
tokio = { version = "1", features = ["macros", "net", "rt-multi-thread", "sync", "time"] }
tracing = "0.1"
tracing-subscriber = "0.3"
