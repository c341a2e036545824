[package]
name = "auto_obfuscate"
version = "0.1.0"
edition = "2021"
publish = false

[dependencies]
rand = "0.8"
syn = { version = "2", features = ["full", "visit-mut"] }
quote = "1"
proc-macro2 = "1"
clap = "4"

[dev-dependencies]
regex = "1"
