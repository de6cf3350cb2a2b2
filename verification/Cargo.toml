[package]
name = "serde_alloc"
version = "0.1.0"
edition = "2021"
publish = false

[dependencies]
serde_core = "1"
serde = "1"
syn = { version = "2", features = ["full"] }
quote = "1"
proc-macro2 = "1"

[dev-dependencies]
serde_json = "1"
