[package]
name = "invi"
version = "0.1.0"
edition = "2021"
publish = false

[dependencies]
termion = "1"
tui = "0.6"
whoami = "*"

[dev-dependencies]
serde_json = "*"
