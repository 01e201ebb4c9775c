[package]
name = "capture"
version = "0.1.0"
edition = "2021"
publish = false

[dependencies]
aya = "=0.13.1"
aya-obj = "=0.2.1"
bytes = "=1.12.1"
pcap = "=2.5.0"
rustix = { version = "=1.1.6", features = ["fs", "pipe"] }
serde = { version = "=1.0.229", features = ["derive"] }
thiserror = "=2.0.21"
