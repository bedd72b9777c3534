[package]
name = "fluxsyncd"
version = "0.1.0"
edition = "2021"
publish = false

[dependencies]
anyhow = "1"
arboard = "=3.7.0"
base32 = "=0.5.1"
base64 = "=0.22.1"
blake3 = { version = "=1.8.7", default-features = false, features = ["pure"] }
hex = "=0.4.3"
image = { version = "=0.25.10", default-features = false, features = ["png"] }
mdns-sd = "=0.21.7"
nix = { version = "=0.31.3", features = ["hostname"] }
rand_core = { version = "=0.6.4", features = ["getrandom"] }
serde = { version = "1", features = ["derive"] }
serde_json = "1"
tokio = { version = "=1.54.1", features = ["full"] }
tokio-util = "=0.7.20"
tracing = "0.1"
windows-sys = { version = "0.59", features = ["Win32_System_Power"] }
