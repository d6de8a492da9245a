[package]
name = "lampctl"
version = "0.1.0"
edition = "2021"
publish = false

[dependencies]
rppal = "0.8"
mio = "0.6"
glob = "0.3"
