[package]
name = "artifact"
version = "0.1.0"
edition = "2021"
publish = false

[dependencies]
num-integer = "0.1"
diesel = { version = "2", features = ["sqlite"] }
validator = { version = "0.16", features = ["derive"] }
bitcoincore-rpc = "*"
bitcoin = "*"
dotenvy = "0.15"
