[package]
name = "lib_gerber_edit"
version = "0.2.0"
edition = "2021"
publish = false

[dependencies]
gerber_parser = "*"
chrono = "*"
derive_more = { version = "2", features = ["full"] }
lazy_static = "1"
log = "0.4"
rayon = "1"
thiserror = "2"
winnow = "*"
