[package]
name = "socket"
version = "0.1.0"
edition = "2021"
publish = false

[dependencies]
fnv = "1.0"
http-muncher = "0.3"
mio = "0.6"
slab = "0.4"
