[package]
name = "slp_search"
version = "0.1.0"
edition = "2021"
publish = false

[dependencies]
clap = { version = "=3.2.25", features = ["derive"] }
itertools = "=0.10.5"
nom = "=7.1.3"
peppi = "=2.1.2"
ssbm-data = "=0.1.0"
