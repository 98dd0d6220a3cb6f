[package]
name = "alivio"
version = "0.1.0"
edition = "2021"
publish = false

[dependencies]
either = "1"
log = "0.4"
