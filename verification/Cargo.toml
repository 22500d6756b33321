[package]
name = "aligned_table"
version = "0.1.0"
edition = "2021"
publish = false

[dependencies]
csv = "=1.4.0"

[dev-dependencies]
tabwriter = "=1.4.1"
