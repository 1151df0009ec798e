[package]
name = "clubdam_anidb_indexer"
version = "0.1.0"
edition = "2021"
publish = false

[dependencies]
serde_json = "=1.0.151"
time = "=0.1.45"
reqwest = { version = "=0.12.28", default-features = false, features = ["blocking"] }
csv = "=1.4.0"
