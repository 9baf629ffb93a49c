[package]
name = "shake256"
version = "0.1.0"
edition = "2021"
publish = false

[dependencies]
clap = { version = "=4.6.7", features = ["derive"] }
hex = "=0.4.3"

[dev-dependencies]
sha3 = "=0.10.9"
