[package]
name = "chat_overlay"
version = "0.1.0"
edition = "2021"
publish = false

[dependencies]
log = "*"
env_logger = "*"
tokio = { version = "*", features = ["rt-multi-thread", "macros", "sync", "time"] }
twitch-irc = "*"
