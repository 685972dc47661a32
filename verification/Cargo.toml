[package]
name = "sail_function"
version = "0.1.0"
edition = "2021"
publish = false

[dependencies]
datafusion = { version = "*", default-features = false }
datafusion-common = { version = "*", default-features = false }
datafusion-expr = { version = "*", default-features = false }
once_cell = "1"
