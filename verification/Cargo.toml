[package]
name = "infraweave"
version = "0.1.0"
edition = "2021"
publish = false

[dependencies]
hmac = "=0.12.1"
sha2 = "=0.10.9"
hex = "=0.4.3"
subtle = "=2.6.1"
serde = { version = "=1.0.229", features = ["derive"] }
serde_json = { version = "=1.0.154", features = ["preserve_order"] }
serde_yaml = "=0.9.34"
chrono = "=0.4.45"
regex = "=1.13.1"
hcl-rs = "=0.20.0"
semver = "=1.0.28"
