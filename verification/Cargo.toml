[package]
name = "file_monitor"
version = "0.1.0"
edition = "2021"
publish = false

[dependencies]
env_logger = "=0.11.11"
lettre = { version = "=0.11.23", default-features = false, features = ["smtp-transport", "builder", "rustls-tls", "hostname", "pool"] }
log = "=0.4.34"
notify = "=6.1.1"
serde = { version = "=1.0.229", features = ["derive"] }
toml = "=0.8.23"
