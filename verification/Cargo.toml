[package]
name = "cellular_automata"
version = "0.1.0"
edition = "2021"
publish = false

[dependencies]
rand = "0.8"
probability = "*"
image = { version = "*", default-features = false, features = ["png"] }
