[package]
name = "zkp"
version = "0.1.0"
edition = "2021"
publish = false

[dependencies]
plonky2 = "*"
hex = "*"
serde = { version = "*", features = ["derive"] }
serde_json = "*"
anyhow = "*"
num-bigint = "*"
num-traits = "*"
tiny-keccak = { version = "*", features = ["keccak"] }
sha2 = "*"
rand = "*"

[dev-dependencies]
