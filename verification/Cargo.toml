[package]
name = "s3plot"
version = "0.1.0"
edition = "2021"
publish = false

[dependencies]
chrono = "=0.4.45"
libm = "0.2"
serde = { version = "=1.0.229", features = ["derive"] }
ron = "=0.12.2"
rand = "=0.10.3"
