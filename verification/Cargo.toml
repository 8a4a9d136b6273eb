[package]
name = "null_delimited"
version = "0.1.0"
edition = "2021"
publish = false

[dependencies]
memmap2 = "0.9"
tempfile = "3"

[dev-dependencies]
nom = "7"
