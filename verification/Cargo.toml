[package]
name = "inflation"
version = "0.1.0"
edition = "2021"
publish = false

[dependencies]
linked-hash-map = "*"
thousands = "*"
