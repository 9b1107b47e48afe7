[package]
name = "products_merger"
version = "0.1.0"
edition = "2021"
publish = false

[dependencies]
clap = "*"
csv = "*"
difference = "*"
term = "*"
