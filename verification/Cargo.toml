[package]
name = "exprcalc"
version = "0.1.0"
edition = "2021"

[dependencies]
rustyline = "10"
rustyline-derive = "0.7"
