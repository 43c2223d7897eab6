[package]
name = "diskscout"
version = "0.2.0"
edition = "2021"
publish = false

[dependencies]
clap = { version = "4", features = ["derive"] }
clap_complete = "4"
colored = "3"
indicatif = "0.18"
rayon = "1"
walkdir = "2"
