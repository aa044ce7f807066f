[package]
name = "blackjack"
version = "0.1.0"
edition = "2021"
publish = false

[dependencies]
rand = "0.9"
ratatui = "*"
crossterm = "0.29"
color-eyre = "0.6"
tracing = "0.1"
tracing-appender = "0.2"
tracing-subscriber = "0.3"
