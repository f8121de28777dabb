[package]
name = "coha_filter"
version = "0.1.0"
edition = "2021"
publish = false

[dependencies]
anyhow = "1"
csv = "1"
itertools = "*"
log = "0.4"
rayon = "1"
regex = "1"
rustc-hash = "*"
