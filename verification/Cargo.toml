[package]
name = "exclave"
version = "0.1.0"
edition = "2021"
publish = false

[dependencies]
systemd-parser = "*"
runny = "*"
notify = "4"
