[package]
name = "retention"
version = "0.1.0"
edition = "2021"
publish = false

[dependencies]
sha2 = "*"
rand = "*"
parking_lot = "*"
async-channel = "*"
anyhow = "*"
