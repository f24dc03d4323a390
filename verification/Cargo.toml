[package]
name = "document"
version = "0.1.0"
edition = "2021"
publish = false

[dependencies]
base64 = "0.13"
hex = "0.4"
rand_core = { version = "0.5", features = ["getrandom"] }
serde_json = "1"
sha2 = "0.10"
x25519-dalek = "1"
