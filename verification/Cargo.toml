[package]
name = "lxcidman"
version = "0.1.0"
edition = "2021"
publish = false

[dependencies]
ahash = "*"
indexmap = "*"
clap = { version = "*", features = ["derive"] }
color-eyre = "*"
crossterm = "*"
log = "*"
notify = "*"
ratatui = "*"
thiserror = "*"
tui-logger = "*"
tui-widgets = "*"
