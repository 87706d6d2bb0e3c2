[package]
name = "keymap"
version = "0.1.0"
edition = "2021"
publish = false

[dependencies]
core-foundation = "0.9"
core-graphics = "0.23"
serde = { version = "1", features = ["derive"] }
thiserror = "1"
