[package]
name = "blktopo"
version = "0.1.0"
edition = "2021"
publish = false

[dependencies]
indexmap = "2"
libc = "0.2"
