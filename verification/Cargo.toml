[package]
name = "ctp_build"
version = "0.1.0"
edition = "2021"
publish = false

[dependencies]
regex = "1"
