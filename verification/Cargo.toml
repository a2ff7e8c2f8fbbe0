[package]
name = "client_pin"
version = "0.1.0"
edition = "2021"
publish = false

[dependencies]
serde = "1.0"
serde_bytes = "0.11"
serde_cbor = "0.11"
sha2 = "0.8"
