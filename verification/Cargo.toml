[package]
name = "sqlx-plus"
version = "0.1.0"
edition = "2021"
publish = false

[dependencies]
anyhow = "=1.0.104"
async-trait = "=0.1.92"
itertools = "=0.10.5"
proc-macro2 = "=1.0.107"
quote = "=1.0.47"
sqlx = { version = "=0.6.3", default-features = false, features = ["runtime-tokio-rustls", "sqlite", "mysql", "postgres", "mssql"] }
syn = "=1.0.109"
