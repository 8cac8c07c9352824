[package]
name = "r1cs_merkle"
version = "0.1.0"
edition = "2021"

[dependencies]
num-bigint = { version = "0.4", features = ["serde"] }
serde = { version = "1", features = ["derive"] }
bincode = "1"
