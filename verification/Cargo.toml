[package]
name = "chip_8_core"
version = "0.1.0"
edition = "2021"
publish = false

[dependencies]
byteorder = "*"
rand = "*"
clap = { version = "*", features = ["derive"] }
crossterm = "*"
device_query = "*"
hertz = "*"
lazy_static = "*"
log = "*"
simple-logging = "*"
tui = "*"
