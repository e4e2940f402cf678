[package]
name = "netflow_agg"
version = "0.1.0"
edition = "2021"
publish = false

[dependencies]
chrono = "0.4"
clokwerk = "0.4"
postgres = { version = "0.19", features = ["with-chrono-0_4"] }
postgres-inet = "*"
postgres-types = "0.2"
r2d2 = "0.8"
r2d2_postgres = "0.18"
regex = "1"
serde = { version = "1", features = ["derive"] }
serde_json = "1"
