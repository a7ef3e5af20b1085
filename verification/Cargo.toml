[package]
name = "prom_increase"
version = "0.1.0"
edition = "2021"
publish = false

[dependencies]
pgx = { version = "0.6.1", features = ["pg14"] }
