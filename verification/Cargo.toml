[package]
name = "quick_compression"
version = "0.1.0"
edition = "2021"
publish = false

[dependencies]
group-varint-encoding = "*"

[dev-dependencies]
rand = "0.8"
