[package]
name = "bums"
version = "0.1.0"
edition = "2021"
publish = false

[dependencies]
z3 = "0.12"
log = "0.4"
env_logger = "0.11"
syn = { version = "2", features = ["full", "extra-traits"] }
quote = "1"
proc-macro2 = "1"
