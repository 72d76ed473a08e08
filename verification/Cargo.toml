[package]
name = "gnss_constellation"
version = "0.1.0"
edition = "2021"
publish = false

[dependencies]
sgp4 = "*"
chrono = "*"
serde = { version = "*", features = ["derive"] }
serde_json = "*"
