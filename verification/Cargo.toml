[package]
name = "path_tracer"
version = "0.1.0"
edition = "2021"
publish = false

[dependencies]
mimalloc = { version = "0.1", default-features = false }
rand = "0.8"
rayon = "1"
