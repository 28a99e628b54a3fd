[package]
name = "risk_engine"
version = "0.1.0"
edition = "2021"
publish = false

[dependencies]
futures = "=0.1.31"
gotham = "=0.3.0"
gotham_derive = "=0.3.0"
hyper = "=0.12.36"
kafka = { version = "=0.8.0", default-features = false }
mime = "=0.3.17"
serde = { version = "=1.0.229", features = ["derive"] }
serde_derive = "=1.0.229"
serde_json = "=1.0.154"
