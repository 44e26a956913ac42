[package]
name = "geocol"
version = "0.1.0"
edition = "2021"
publish = false

[dependencies]
proj4rs = { version = "=0.2.0", features = ["crs-definitions"] }
