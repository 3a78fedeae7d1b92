[package]
name = "velr-cli"
version = "0.1.0"
edition = "2021"
publish = false

[dependencies]
velr = "=0.2.56"
tabled = "=0.22.0"
reedline = "=0.52.1"
