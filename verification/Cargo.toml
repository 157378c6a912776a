[package]
name = "term-maths"
version = "0.1.0"
edition = "2021"
publish = false

[dependencies]
rust-latex-parser = "=0.1.1"
