[package]
name = "dtqueue"
version = "0.1.0"
edition = "2021"
publish = false

[dependencies]
rusqlite = { version = "*", features = ["bundled"] }
r2d2 = "*"
axum = "*"
tokio = { version = "*", features = ["rt-multi-thread", "net", "macros"] }
chrono = "*"
serde = { version = "*", features = ["derive"] }
config = "*"
log = "*"
env_logger = "*"
