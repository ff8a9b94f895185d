[package]
name = "jc3vrs"
version = "0.1.0"
edition = "2021"
publish = false

[dependencies]
flate2 = "=1.1.10"
serde = { version = "=1.0.229", features = ["derive"] }
tar = "=0.4.46"
