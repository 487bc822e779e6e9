[package]
name = "benchdiff"
version = "0.1.0"
edition = "2021"
publish = false

[dependencies]
anyhow = "*"
csv = "*"
structopt = "*"
term = "*"
