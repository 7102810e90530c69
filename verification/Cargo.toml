[package]
name = "hudi_core"
version = "0.1.0"
edition = "2021"
publish = false

[dependencies]
apache-avro = "*"
arrow = { version = "*", default-features = false }
arrow-array = "*"
arrow-row = "*"
arrow-schema = "*"
parquet = { version = "*", default-features = false, features = ["arrow"] }
serde_json = "1"
tempfile = "3"
