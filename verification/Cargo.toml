[package]
name = "sitevik"
version = "0.1.0"
edition = "2021"
publish = false

[dependencies]
actix-web = { version = "4", default-features = false, features = ["macros"] }
actix-files = "0.6"

[dev-dependencies]
tempfile = "3"
