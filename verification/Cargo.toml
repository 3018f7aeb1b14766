[package]
name = "mspview"
version = "0.1.0"
edition = "2021"
publish = false

[dependencies]
crossbeam-channel = "*"
crossterm = "*"
getopts = "*"
regex = "*"
serialport = { version = "*", default-features = false }
sys-info = "*"
url = "*"
