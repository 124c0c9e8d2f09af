[package]
name = "autoclicker"
version = "0.1.0"
edition = "2021"
publish = false

[dependencies]
enigo = "0.1"
rdev = "0.5"
