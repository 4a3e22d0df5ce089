[package]
name = "multer"
version = "0.1.0"
edition = "2021"
publish = false

[dependencies]
bytes = "1"
encoding_rs = "0.8"
futures = "0.3"
http = "*"
mime = "0.3"
serde = "1"
serde_json = "1"
