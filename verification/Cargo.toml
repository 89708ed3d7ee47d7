[package]
name = "tracing-perf"
version = "0.1.0"
edition = "2021"
publish = false

[dependencies]
indexmap = "2"
minstant = "0.1"
tracing = { version = "0.1", default-features = false, features = ["std"] }
