[package]
name = "pake"
version = "0.1.0"
edition = "2021"
publish = false

[dependencies]
poker = "=0.7.0"
