[package]
name = "puzzle_harness"
version = "0.1.0"
edition = "2021"
publish = false

[dependencies]
clap = { version = "*", features = ["derive"] }
colored = "*"
itertools = "*"
rayon = "*"
serde = { version = "*", features = ["derive"] }
thiserror = "*"
