[package]
name = "cfg_rs"
version = "0.1.0"
edition = "2021"
publish = false

[dependencies]
rand = "0.8"
regex = "*"
toml = "*"
json = "*"
rust-ini = "*"
yaml-rust2 = "*"
