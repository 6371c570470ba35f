[package]
name = "public_ledger"
version = "0.1.0"
edition = "2021"
publish = false

[dependencies]
ring = "*"
rand = "*"
hex = "*"
base64 = "*"
chrono = "*"
