[package]
name = "rpi-camilla-bridge"
version = "0.1.2"
edition = "2021"
publish = false

[dependencies]
alsa = "*"
anyhow = "1"
clap = { version = "4", features = ["derive"] }
cpal = "0.17"
crossbeam-channel = "0.5"
ctrlc = { version = "3", features = ["termination"] }
gethostname = "*"
mdns-sd = "=0.21.7"
serde_json = "=1.0.154"
thiserror = "2"
tracing = "0.1"
tracing-subscriber = { version = "0.3", features = ["env-filter"] }
tungstenite = "=0.30.0"
