[package]
name = "docsync"
version = "0.1.0"
edition = "2021"
publish = false

[dependencies]
rusty-s3 = "*"
url = "*"
reqwest = { version = "*", default-features = false, features = ["blocking"] }
