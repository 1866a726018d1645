[package]
name = "json_columnar"
version = "0.1.0"
edition = "2021"
publish = false

[dependencies]
arrow = "=60.0.0"
jsonb = "=0.5.6"
parquet = "=60.0.0"
serde_json = { version = "=1.0.154", features = ["arbitrary_precision", "preserve_order"] }
