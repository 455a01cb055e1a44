[package]
name = "substrate_lessons"
version = "0.1.0"
edition = "2021"
publish = false

[dependencies]
parity-scale-codec = { version = "=3.7.5", default-features = false, features = ["std"] }
sp-io = "=49.0.0"
clap = "=2.34.0"

[dev-dependencies]
sp-crypto-hashing = "=0.1.0"
