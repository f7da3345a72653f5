[package]
name = "crossword"
version = "0.1.0"
edition = "2021"
publish = false

[dependencies]
near-sdk = { version = "=5.29.1", default-features = false, features = ["legacy", "non-contract-usage"] }
