[package]
name = "its_extract"
version = "0.1.0"
edition = "2021"
publish = false

[dependencies]
csv = "1"
chrono = { version = "0.4", default-features = false, features = ["std"] }
dbase = "*"
zip = { version = "0.6", default-features = false, features = ["deflate"] }
