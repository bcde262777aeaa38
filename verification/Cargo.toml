[package]
name = "logwatch"
version = "0.1.0"
edition = "2021"
publish = false

[dependencies]
regex = "=1.13.1"
strip-ansi-escapes = "=0.2.1"
serde = { version = "=1.0.229", features = ["derive"] }
serde_json = "=1.0.151"
notify = "=8.2.0"
ratatui = "=0.30.2"
color-eyre = "=0.6.5"
crossterm = "=0.29.0"
