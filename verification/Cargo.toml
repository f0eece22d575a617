[package]
name = "fingerprint"
version = "0.1.0"
edition = "2021"
publish = false

[dependencies]
chrono = "0.4"
itertools = "0.10"
plotters = { version = "0.3", default-features = false, features = ["svg_backend", "line_series", "chrono"] }
rand = "0.8"
