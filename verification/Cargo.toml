[package]
name = "modbot"
version = "0.1.0"
edition = "2021"
publish = false

[dependencies]
chrono = "*"
humantime = "*"
kv = "*"
