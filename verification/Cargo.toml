[package]
name = "mproto"
version = "0.1.0"
edition = "2021"
publish = false

[dependencies]
genco = "0.17"
clap = { version = "4", features = ["derive"] }
