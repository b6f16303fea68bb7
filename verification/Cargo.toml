[package]
name = "tmf"
version = "0.1.0"
edition = "2021"
publish = false

[dependencies]
smallvec = "1"
futures = "0.3"

[dev-dependencies]
rand = "0.8"
