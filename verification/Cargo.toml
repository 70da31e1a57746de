[package]
name = "uq"
version = "0.1.0"
edition = "2021"
publish = false

[dependencies]
clap = "2.34"
failure = "0.1"
failure_derive = "0.1"
fxhash = "0.2"
itertools = "0.10"
regex = "1"
