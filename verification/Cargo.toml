[package]
name = "btfy"
version = "0.1.0"
edition = "2021"
publish = false

[dependencies]
regex = "=1.13.1"
vdf-rs = "=0.2.1"
rsa = { version = "=0.9.10", features = ["sha2"] }
sha2 = { version = "=0.10.9", features = ["oid"] }
rand = "=0.8.8"
bitcode = "=0.6.9"
serde = { version = "=1.0.229", features = ["derive"] }
serde_json = "=1.0.154"
tokio = { version = "=1.54.1", features = ["full"] }
axum = "=0.8.9"
chrono = "=0.4.45"
futures = "=0.3.34"
log = "=0.4.35"
simple_logger = "=5.2.0"
anyhow = "=1.0.104"
geojson = "=1.0.0"
