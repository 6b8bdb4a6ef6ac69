[package]
name = "pixel_rate"
version = "0.1.0"
edition = "2021"
publish = false

[dependencies]
base16 = "=0.2.1"
casper-contract = { version = "=5.1.1", default-features = false }
casper-types = "=6.1.0"
