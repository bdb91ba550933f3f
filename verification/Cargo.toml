[package]
name = "tsp_umbrales"
version = "0.1.0"
edition = "2021"
publish = false

[dependencies]
rand = "*"
rusqlite = { version = "*", features = ["bundled"] }
chrono = "*"
svg = "*"
geo = "*"
