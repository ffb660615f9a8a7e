[package]
name = "baseline_eto_data"
version = "0.1.0"
edition = "2021"
publish = false

[dependencies]
byteorder = "*"
clap = { version = "*", features = ["derive"] }
tracing = "*"
