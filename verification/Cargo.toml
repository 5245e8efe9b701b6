[package]
name = "connector_mango"
version = "0.1.0"
edition = "2021"
publish = false

[dependencies]
bytes = "*"
fixed = "*"
postgres-types = "*"
