[package]
name = "cairo_mutants"
version = "0.1.0"
edition = "2021"
publish = false

[dependencies]
clap = { version = "4", features = ["derive"] }
colored = "2"
derive_more = { version = "*", features = ["from"] }
rayon = "1"
