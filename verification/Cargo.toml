[package]
name = "winmosh"
version = "0.1.0"
edition = "2021"
publish = false

[dependencies]
aes = "=0.8.4"
base64 = "=0.22.1"
ocb3 = "=0.1.0"
flate2 = "=1.0.35"
crossterm = "=0.28.1"
