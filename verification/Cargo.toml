[package]
name = "noter"
version = "0.1.0"
edition = "2021"

[dependencies]
regex = "*"
ratatui = "*"
crossterm = "*"
config = "*"
