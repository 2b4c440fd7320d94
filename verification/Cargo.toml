[package]
name = "sl_compiler"
version = "0.1.0"
edition = "2021"
publish = false

[dependencies]
rhai = { version = "1", features = ["internals"] }
