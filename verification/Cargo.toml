[package]
name = "inference"
version = "0.1.0"
edition = "2021"
publish = false

[dependencies]
lazy_static = "1"
parking_lot = "0.12"
proc-macro2 = "1"
quote = "1"
syn = { version = "2", features = ["full"] }
