[package]
name = "imessage-exporter"
version = "0.1.0"
edition = "2021"
publish = false

[dependencies]
imessage-database = "~1.5"
rusqlite = "=0.29.0"
