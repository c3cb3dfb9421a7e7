[package]
name = "cwtools"
version = "0.1.0"
edition = "2021"
publish = false

[dependencies]
parking_lot = "=0.12.5"
rustc-hash = "=2.1.3"
smallvec = "1"
