[package]
name = "d26run"
version = "0.1.0"
edition = "2021"
publish = false

[dependencies]
users = "=0.11.0"
palaver = "=0.2.8"
libc = "0.2"
