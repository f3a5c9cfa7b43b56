[package]
name = "dartminhash"
version = "0.1.1"
edition = "2021"
publish = false

[dependencies]
mt19937 = "*"
rand_core = "*"
tab-hash = "*"
