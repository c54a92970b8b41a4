[package]
name = "bounded_lru"
version = "0.1.0"
edition = "2021"
publish = false

[dependencies]
bytes = "1"
linked-hash-map = "0.5"
