[package]
name = "tui-markup-renderer"
version = "0.1.0"
edition = "2021"
publish = false

[dependencies]
tui = "0.19"
crossterm = "0.25"
xml-rs = "0.8"
clap = { version = "4", features = ["derive"] }
log = "0.4"
env_logger = "0.10"
