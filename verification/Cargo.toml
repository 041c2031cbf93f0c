[package]
name = "fuzzy_finder"
version = "0.1.0"
edition = "2021"
publish = false

[dependencies]
strsim = "0.10"
crossterm = "0.25"
tui = "0.19"
signal-hook = "0.3"
