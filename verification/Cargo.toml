[package]
name = "libzeropool"
version = "0.1.0"
edition = "2021"
publish = false

[dependencies]
fawkes-crypto = "=4.4.0"
serde = { version = "=1.0.229", features = ["derive"] }
