[package]
name = "cairo"
version = "0.1.0"
edition = "2021"
publish = false

[dependencies]
chrono = "*"
handlebars = "*"
serde_json = "*"
clap = "*"
colored = "*"
