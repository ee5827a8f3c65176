[package]
name = "airprowl"
version = "0.1.0"
edition = "2021"
publish = false

[dependencies]
anyhow = "1"
bluer = { version = "0.17", features = ["bluetoothd"] }
crossterm = { version = "0.28", features = ["event-stream"] }
futures = "0.3"
libc = "0.2"
libwifi = "*"
pnet = "0.35"
ratatui = "0.29"
rusb = "0.9"
serde = { version = "1", features = ["derive"] }
serde_json = "1"
tokio = { version = "1", features = ["full"] }
tokio-util = "0.7"
unicode-width = "*"
