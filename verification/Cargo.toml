[package]
name = "schema_admin"
version = "0.1.0"
edition = "2021"
publish = false

[dependencies]
mysql = "*"
regex = "*"
serde = { version = "*", features = ["derive"] }
ron = "*"
