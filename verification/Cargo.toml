[package]
name = "env_toml"
version = "0.1.0"
edition = "2021"
publish = false

[dependencies]
serde_core = "1"
serde_spanned = { version = "1", features = ["serde"] }
toml_datetime = { version = "0.7", features = ["serde"] }
