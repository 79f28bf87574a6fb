[package]
name = "senmei"
version = "0.1.0"
edition = "2021"
publish = false

[dependencies]
serde = { version = "=1.0.229", features = ["derive"] }
serde_json = "=1.0.154"
libloading = "=0.8.9"
log = "=0.4.35"

[dev-dependencies]
regex = "1"
