[package]
name = "ruls"
version = "0.1.0"
edition = "2021"
publish = false

[dependencies]
atty = "0.2"
chrono = "0.4"
clap = { version = "4", features = ["derive"] }
humansize = "2"
owo-colors = "*"
walkdir = "2"
