[package]
name = "telemetry"
version = "0.1.0"
edition = "2021"
publish = false

[dependencies]
anyhow = "1"
async-std = "1"
isahc = "0.9"
log = "0.4"
serde_json = "=1.0.154"
signal-hook = "0.1"
svc-agent = "0.14"
svc-authn = { version = "0.6", features = ["jose"] }
woothee = "0.11"
