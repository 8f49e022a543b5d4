[package]
name = "shd_staking"
version = "0.1.0"
edition = "2021"
publish = false

[dependencies]
ethnum = "*"
cosmwasm-std = "*"
serde = "*"
