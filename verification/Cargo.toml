[package]
name = "conllx_hash_disjoin"
version = "0.1.0"
edition = "2021"
publish = false

[dependencies]
twox-hash = "1"
rand = "0.8"
clap = "2"
stdinout = "*"
