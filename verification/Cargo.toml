[package]
name = "bdwgc-box"
version = "0.2.1"
edition = "2021"
publish = false

[dependencies]
safer-ffi = { version = "0.1", features = ["headers"] }
