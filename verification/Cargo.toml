[package]
name = "mdslides"
version = "0.1.0"
edition = "2021"
publish = false

[dependencies]
anyhow = "1"
comrak = { version = "0.18", default-features = false }
crossterm = "0.27"
itertools = "0.11"
qrcode = { version = "0.12", default-features = false }
ratatui = "0.23"
