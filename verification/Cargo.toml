[package]
name = "rust_ore"
version = "0.1.0"
edition = "2021"
publish = false

[dependencies]
md5 = "=0.7.0"
rand = "=0.8.8"
