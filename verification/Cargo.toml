[package]
name = "lockjaw"
version = "0.1.0"
edition = "2021"
publish = false

[dependencies]
rustc_apfloat = "*"
rustyline = "*"
clap = { version = "*", features = ["derive"] }
