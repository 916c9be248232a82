[package]
name = "loc_cache"
version = "0.1.0"
edition = "2021"
publish = false

[dependencies]
sha2 = "0.10"
hex = "0.4"
serde_json = "1"
reqwest = { version = "0.12", features = ["blocking", "json"] }
dotenvy = "0.15"
once_cell = "1"
xmltree = "0.10"
