[package]
name = "batch_export"
version = "0.1.0"
edition = "2021"
publish = false

[dependencies]
csv = "*"
odbc-api = "*"
anyhow = "*"
