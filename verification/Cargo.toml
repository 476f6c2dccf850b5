[package]
name = "ecs"
version = "0.1.0"
edition = "2021"
publish = false

[dependencies]
crossbeam = "0.8"
proc-macro2 = "1"
quote = "1"
syn = { version = "1", features = ["full"] }
