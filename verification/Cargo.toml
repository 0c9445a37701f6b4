[package]
name = "store_system"
version = "0.1.5"
edition = "2021"
publish = false

[dependencies]
seahash = "=4.1.0"
serde = { version = "=1.0.229", features = ["derive"] }
serde_json = "=1.0.154"
serde_yaml = "=0.9.34"
jammdb = "=0.11.0"
rusqlite = { version = "=0.41.1", features = ["bundled"] }
chrono = "=0.4.45"
bytes = "=1.12.1"
moka = { version = "=0.12.16", features = ["sync"] }
tokio = { version = "=1.54.1", features = ["full"] }
thiserror = "=2.0.21"
anyhow = "=1.0.104"
libc = "=0.2.191"
num_cpus = "=1.17.0"
tokio-tungstenite = "=0.30.0"
futures-util = "=0.3.34"
dashmap = "=6.2.1"
base64 = "0.22"
warp = "0.3"
