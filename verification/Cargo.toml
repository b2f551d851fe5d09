[package]
name = "usage_core"
version = "0.1.0"
edition = "2021"
publish = false

[dependencies]
chrono = "0.4"
serde_json = "1"
ureq = "2"
leveldb-core = "*"
