[package]
name = "chat_host"
version = "0.1.0"
edition = "2021"
publish = false

[dependencies]
crossterm = "0.25"
itertools = "0.10"
mio = { version = "0.8", features = ["os-poll", "net"] }
tui = "0.19"
unicode-width = "0.1"
