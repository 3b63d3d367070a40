[package]
name = "binimage"
version = "0.1.0"
edition = "2021"
publish = false

[dependencies]
docopt = "*"
image = "*"
serde = "*"
serde_derive = "*"
