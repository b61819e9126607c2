[package]
name = "workspace_audit"
version = "0.1.0"
edition = "2021"
publish = false

[dependencies]
toml = "*"
