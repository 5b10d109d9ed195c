[package]
name = "lapce_agent"
version = "0.1.0"
edition = "2021"
publish = false

[dependencies]
agent-client-protocol = "=2.2.0"
anyhow = "1"
futures = "0.3"
im = "15"
lapce-xi-rope = "*"
libc = "0.2"
parking_lot = "0.12"
serde = { version = "1", features = ["derive"] }
toml = "0.9"
tracing = "0.1"
