[package]
name = "cargo_compete"
version = "0.1.0"
edition = "2021"
publish = false

[dependencies]
heck = "*"
krates = "*"
structopt = "*"
toml_edit = "*"
url = "*"
