[package]
name = "layout_2020"
version = "0.1.0"
edition = "2021"
publish = false

[dependencies]
webrender_api = "*"

[dev-dependencies]
euclid = "=0.20.14"
