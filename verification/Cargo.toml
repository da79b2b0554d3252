[package]
name = "hcl"
version = "0.1.0"
edition = "2021"
publish = false

[dependencies]
clap = "2"
termion = "1.5"
tui = "0.6"
