[package]
name = "tig_benchmarker"
version = "0.1.0"
edition = "2021"
publish = false

[dependencies]
rand = "0.8.5"
tokio = { version = "1", features = ["rt", "sync"] }
once_cell = "1"
