[package]
name = "host-bridge-mcp"
version = "0.1.0"
edition = "2021"
publish = false

[dependencies]
uuid = { version = "=1.29.0", features = ["v4"] }
serde = { version = "=1.0.229", features = ["derive"] }
serde_json = "=1.0.154"
serde_yaml = "=0.9.34"
clap = { version = "=4.6.7", features = ["derive"] }
tokio = { version = "=1.54.1", features = ["rt-multi-thread", "macros", "process", "io-util", "time", "sync", "net", "signal", "fs"] }
axum = "0.8"
tokio-stream = { version = "0.1", features = ["sync"] }
tracing = "0.1"
tracing-subscriber = "0.3"
rmcp = { version = "*", features = ["server", "macros", "transport-streamable-http-server"] }
crossterm = "0.28"
ratatui = "0.29"
notify = "8"
russh = "*"
