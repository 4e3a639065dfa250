[package]
name = "qc"
version = "0.1.0"
edition = "2021"
publish = false

[dependencies]
structopt = "0.3"
