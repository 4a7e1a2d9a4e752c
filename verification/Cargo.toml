[package]
name = "netcore"
version = "0.1.0"
edition = "2021"
publish = false

[dependencies]
anyhow = "1"
humansize = "2"
libc = "0.2"
libdeflater = "1"
tracing = "0.1"
valence_protocol = "0.2.0-alpha.1"
