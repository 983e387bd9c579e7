[package]
name = "fenrir"
version = "0.1.0"
edition = "2021"
publish = false

[dependencies]
crossterm = "*"
ratatui = "*"
image = "*"
viuer = "*"
freedesktop-desktop-entry = "*"
