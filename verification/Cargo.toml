[package]
name = "manifest"
version = "0.1.0"
edition = "2021"
publish = false

[dependencies]
json = "*"
serde = { version = "*", features = ["derive"] }
toml = "*"
etcetera = "*"
