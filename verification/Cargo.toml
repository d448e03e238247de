[package]
name = "core_ir"
version = "0.1.0"
edition = "2021"
publish = false

[dependencies]
pretty = "0.3"
