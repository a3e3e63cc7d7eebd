[package]
name = "record_store"
version = "0.1.0"
edition = "2021"
publish = false

[dependencies]
base-62 = "*"
chrono = "*"
