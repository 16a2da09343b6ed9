[package]
name = "anym"
version = "0.1.0"
edition = "2021"
publish = false

[dependencies]
nanoid = "*"
numtoa = "*"
proc-macro2 = "*"
quote = "*"
syn = { version = "*", features = ["full"] }
