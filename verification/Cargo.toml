[package]
name = "labyrinth"
version = "0.1.0"
edition = "2021"
publish = false

[dependencies]
itertools = "0.10"
rand = "0.8"
unicode-width = "0.1"
