[package]
name = "qreg"
version = "0.1.0"
edition = "2021"

[dependencies]
num = "0.4"
rand = "0.8"
