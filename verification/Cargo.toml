[package]
name = "mcp24lc512"
version = "0.1.0"
edition = "2021"
publish = false

[dependencies]
embedded-hal = "0.2"
embedded-time = "0.12"
