[package]
name = "hivechain"
version = "0.1.0"
edition = "2021"
publish = false

[dependencies]
hex = "0.4"
rand = "0.8"
sha2 = "0.10"
tokio = { version = "1", features = ["macros", "rt-multi-thread"] }
