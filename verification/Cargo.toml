[package]
name = "header_with_proof"
version = "0.1.0"
edition = "2021"
publish = false

[dependencies]
keccak-hash = "*"
sha2 = "*"

[dev-dependencies]
hex = "*"
