[package]
name = "exchange_rate_path"
version = "0.1.0"
edition = "2021"
publish = false

[dependencies]
chrono = "*"
matrix = "*"
petgraph = "*"
