[package]
name = "shortner"
version = "0.1.0"
edition = "2021"
publish = false

[dependencies]
anyhow = "*"
hyper = { version = "0.14", features = ["full"] }
nanoid = "*"
rusqlite = { version = "*", features = ["bundled"] }
smol = "*"
