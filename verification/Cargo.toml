[package]
name = "pallet_poe"
version = "0.1.0"
edition = "2021"
publish = false

[dev-dependencies]
parity-scale-codec = "*"
