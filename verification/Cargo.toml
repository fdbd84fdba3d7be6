[package]
name = "zeno_fcis"
version = "0.1.0"
edition = "2021"
publish = false

[dependencies]
subtle = "2"
zeroize = "1"
