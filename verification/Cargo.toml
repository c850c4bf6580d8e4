[package]
name = "ipmi"
version = "0.1.0"
edition = "2021"
publish = false

[dependencies]
sqlite = "0.26"
structopt = "0.3"
