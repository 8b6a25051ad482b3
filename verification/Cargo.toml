[package]
name = "grapevine_inputs"
version = "0.1.0"
edition = "2021"
publish = false

[dependencies]
ark-bn254 = "*"
ark-ff = "*"
ark-std = "*"
num-bigint = { version = "0.4", features = ["rand"] }
rand = "0.8"
