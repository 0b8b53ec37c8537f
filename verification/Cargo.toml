[package]
name = "timeconv"
version = "0.1.0"
edition = "2021"
publish = false

[dependencies]
chrono = "0.4"
itertools = "0.12"
regex = "1"
