[package]
name = "pneuma"
version = "0.1.0"
edition = "2021"
publish = false

[dependencies]
libc = "0.2"
io-uring = "0.7"
