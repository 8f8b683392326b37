[package]
name = "schema"
version = "0.1.0"
edition = "2021"
publish = false

[dependencies]
blake3 = "1.8"
thiserror = "2"
