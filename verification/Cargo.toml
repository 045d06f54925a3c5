[package]
name = "usbip"
version = "0.9.1"
edition = "2021"
publish = false

[dependencies]
env_logger = "0.11"
log = "0.4"
nusb = "0.2"
rusb = "0.9"
serde = { version = "1", features = ["derive"] }
tokio = { version = "1", features = ["io-util", "macros", "net", "rt", "rt-multi-thread", "sync", "time"] }
