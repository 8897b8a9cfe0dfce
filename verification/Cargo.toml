[package]
name = "adrus"
version = "0.1.0"
edition = "2021"
publish = false

[dependencies]
anyhow = "=1.0.104"
chrono = "=0.4.45"
inquire = { version = "=0.9.4", features = ["editor"] }
