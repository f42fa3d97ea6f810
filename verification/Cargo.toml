[package]
name = "icarus_search"
version = "0.1.0"
edition = "2021"
publish = false

[dependencies]
arrayvec = "0.7"
smallvec = "1"
atomic-wait = "1"
