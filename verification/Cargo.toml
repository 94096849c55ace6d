[package]
name = "salvo_t"
version = "0.1.0"
edition = "2021"
publish = false

[dependencies]
regex = "*"
percent-encoding = "*"
cruet = "*"
