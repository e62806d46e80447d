[package]
name = "portable_storage"
version = "0.1.0"
edition = "2021"
publish = false

[dependencies]
bytes = "1"
linked-hash-map = "0.5"
serde = "1"
thiserror = "1"
uuid = "1"
