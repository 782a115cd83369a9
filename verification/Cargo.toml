[package]
name = "outline_report"
version = "0.1.0"
edition = "2021"
publish = false

[dependencies]
anyhow = "1"
csv = "1"
rust_xlsxwriter = "*"
