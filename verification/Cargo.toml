[package]
name = "bogoforge"
version = "0.1.0"
edition = "2021"
publish = false

[dependencies]
anyhow = "1"
bytemuck = "1"
chrono = "0.4"
crossterm = "0.28"
fern = "0.7"
futures-util = "0.3"
http = "1"
log = "0.4"
orx-parallel = "*"
parking_lot = "0.12"
pollster = "0.3"
ratatui = "0.28"
serde = { version = "1", features = ["derive"] }
serde_json = "1"
sysinfo = "0.31"
tokio = { version = "1", features = ["full"] }
tokio-tungstenite = "0.24"
tokio-util = "0.7"
toml = "0.8"
wgpu = { version = "22", default-features = false, features = ["wgsl"] }
