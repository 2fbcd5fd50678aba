[package]
name = "agent_hub"
version = "0.1.0"
edition = "2021"
publish = false

[dependencies]
axum = { version = "0.7", features = ["ws"] }
base64 = "0.22"
chrono = "0.4"
dirs = "5"
flate2 = "1"
futures = "0.3"
libc = "0.2"
local-ip-address = "0.6"
once_cell = "1"
parking_lot = "0.12"
portable-pty = "0.8"
rusqlite = { version = "0.31", features = ["bundled"] }
serde = { version = "1", features = ["derive"] }
serde_json = "1"
shellexpand = "3"
tokio = { version = "1", features = ["rt-multi-thread", "macros", "io-util", "process", "sync", "net", "time"] }
tower-http = { version = "0.5", features = ["cors", "fs"] }
uuid = { version = "1", features = ["v4"] }
