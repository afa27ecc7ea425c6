[package]
name = "incubator"
version = "0.1.0"
edition = "2021"
publish = false

[dependencies]
chrono = "0.4"
clap = { version = "4", features = ["derive"] }
indicatif = "0.17"
rayon = "1"
regex = "1"
zstd = "0.13"
