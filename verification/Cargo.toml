[package]
name = "cel"
version = "0.1.0"
edition = "2021"
publish = false

[dependencies]
aho-corasick = "1"
chrono = "0.4"
regex = "1"
