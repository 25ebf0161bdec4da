[package]
name = "tetris"
version = "0.1.0"
edition = "2021"
publish = false

[dependencies]
nannou = { version = "0.18", default-features = false }
rand = "0.8"
