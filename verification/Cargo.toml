[package]
name = "digitalni_potpis"
version = "0.1.0"
edition = "2021"
publish = false

[dependencies]
openssl = "0.10"
rand = "0.8"
hex = "0.4"
