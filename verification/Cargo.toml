[package]
name = "coin_selection"
version = "0.1.0"
edition = "2021"
publish = false

[dependencies]
grin_core = "=5.5.2"
grin_keychain = "=5.5.2"
grin_util = "=5.5.2"
