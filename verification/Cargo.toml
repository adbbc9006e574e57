[package]
name = "relayout"
version = "0.1.0"
edition = "2021"
publish = false

[dependencies]
comemo = "0.2"
