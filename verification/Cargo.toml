[package]
name = "geode"
version = "0.0.1"
edition = "2021"
publish = false

[dependencies]
pretty-type-name = "*"
