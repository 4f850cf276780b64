[package]
name = "dex_trades"
version = "0.1.0"
edition = "2021"
publish = false

[dependencies]
hex = "*"
substreams = "*"
substreams-ethereum = "*"
