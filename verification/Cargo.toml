[package]
name = "fast_dedup"
version = "0.1.0"
edition = "2021"
publish = false

[dependencies]
clap = "*"
fast-dhash = "*"
image = "*"
imagesize = "*"
indicatif = "*"
