[package]
name = "snowflake"
version = "0.1.0"
edition = "2021"
publish = false

[dependencies]
chrono = "0.4"
csv = "1"
fnv = "1"
ndarray = "0.16"
ndarray-rand = "0.15"
parking_lot = "0.12"
serde = { version = "1", features = ["derive"] }
stl_io = "*"
tracing = "0.1"
