[package]
name = "braindump"
version = "0.1.0"
edition = "2021"
publish = false

[dependencies]
chrono = "=0.4.45"
home = "=0.5.12"
tempfile = "=3.27.0"
toml = "=0.8.23"
