[package]
name = "blockstore"
version = "0.1.0"
edition = "2021"
publish = false

[dependencies]
libsecp256k1 = "*"
rand = "0.8"
sha2 = "0.10"
