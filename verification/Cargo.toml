[package]
name = "pallet_subspace"
version = "0.1.0"
edition = "2021"
publish = false

[dependencies]
parity-scale-codec = { version = "3", features = ["derive"] }
log = "0.4"
sp-std = "*"
frame-support = "*"
frame-system = "*"
