[package]
name = "toygrep"
version = "0.1.0"
edition = "2021"
publish = false

[dependencies]
async-std = { version = "1", features = ["attributes"] }
async-trait = "0.1"
atty = "0.2"
crossbeam-channel = "0.5"
peeking_take_while = "0.1"
regex = "1"
termcolor = "1"
