[package]
name = "pcstone"
version = "1.0.0"
edition = "2021"
publish = false

[dependencies]
turbo-genesis-sdk = "*"
