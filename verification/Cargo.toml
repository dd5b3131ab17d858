[package]
name = "sdr_radio"
version = "0.1.0"
edition = "2021"
publish = false

[dependencies]
color-eyre = "*"
cpal = "*"
crossbeam-channel = "*"
crossterm = "*"
num = "*"
ratatui = "*"
rs-rtl = "*"
rustfft = "*"
