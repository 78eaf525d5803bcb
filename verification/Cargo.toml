[package]
name = "send2me"
version = "0.1.0"
edition = "2021"
publish = false

[dependencies]
blake3 = "=1.8.7"
aes-gcm = "=0.10.3"
rand = "=0.8.8"
uuid = { version = "=1.29.0", features = ["v4"] }
serde = { version = "=1.0.229", features = ["derive"] }
serde_json = "=1.0.154"
dirs = "=5.0.1"
chrono = "=0.4.45"
sysinfo = "=0.32.1"
winreg = "0.52"
