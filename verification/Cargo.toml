[package]
name = "typikon"
version = "0.2.0"
edition = "2021"
publish = false

[dependencies]
blake3 = "1"
