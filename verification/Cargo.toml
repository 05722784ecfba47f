[package]
name = "oplang"
version = "0.1.0"
edition = "2021"
publish = false

[dependencies]
owo-colors = "*"
clap = { version = "*", features = ["derive"] }
num_enum = "*"
