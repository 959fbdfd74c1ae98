[package]
name = "evalrus"
version = "0.1.0"
edition = "2021"
publish = false

[dependencies]
fnv = "1"
clap = "2"
rustyline = "9"
dirs = "4"
