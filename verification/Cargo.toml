[package]
name = "mime_multipart"
version = "0.1.0"
edition = "2021"
publish = false

[dependencies]
buf-read-ext = "*"
encoding = "0.2"
httparse = "1"
hyper = "0.10"
mime = "0.2"
tempdir = "0.3"
tempfile = "3"
textnonce = "*"
