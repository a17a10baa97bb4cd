[package]
name = "standup"
version = "0.1.0"
edition = "2021"
publish = false

[dependencies]
crossterm = "=0.29.0"
libc = "=0.2.191"
ratatui = "*"
serde = { version = "1", features = ["derive"] }
serde_json = "1"
signal-hook = "*"
