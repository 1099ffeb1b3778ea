[package]
name = "vornix_banner"
version = "0.1.0"
edition = "2021"
publish = false

[dependencies]
crossterm = "*"
figlet-rs = "*"
owo-colors = "*"
terminal_size = "*"
thiserror = "*"
unicode-width = "*"
