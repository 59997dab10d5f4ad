[package]
name = "keylog"
version = "0.1.0"
edition = "2021"
publish = false

[dependencies]
zip-longest = "*"
