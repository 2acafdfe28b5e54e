[package]
name = "expression"
version = "0.1.0"
edition = "2021"
publish = false

[dependencies]
chrono = "0.4"
regex = "1"
rustc_apfloat = "0.2"
