[package]
name = "databend"
version = "0.2.0"
edition = "2021"
publish = false

[dependencies]
rand = "0.9"
image = { version = "0.25", default-features = false, features = ["png", "jpeg"] }
crossterm = "0.28"
ratatui = "0.29"
