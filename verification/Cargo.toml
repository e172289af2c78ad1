[package]
name = "chat_relay"
version = "0.1.0"
edition = "2021"
publish = false

[dependencies]
axum = "0.7"
serde = { version = "1", features = ["derive"] }
socketioxide = { version = "0.12", features = ["state"] }
tokio = { version = "1", features = ["rt-multi-thread", "macros", "net", "sync"] }
tower = "0.4"
tower-http = { version = "0.5", features = ["cors"] }
