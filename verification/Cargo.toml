[package]
name = "dish_control"
version = "0.1.0"
edition = "2021"
publish = false

[dependencies]
regex = "1"
clap = { version = "4", features = ["derive"] }
color-eyre = "0.6"
crossbeam = "0.8"
crossterm = "0.28"
log = "0.4"
ratatui = "0.29"
serialport = { version = "4", default-features = false }
tui-logger = "0.14"
