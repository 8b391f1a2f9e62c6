[package]
name = "cqx"
version = "0.1.0"
edition = "2021"
publish = false

[dependencies]
deka-cli-core = { version = "=0.6.0", default-features = false, features = ["registry"] }
proc-macro2 = { version = "=1.0.107", features = ["span-locations"] }
quote = "=1.0.47"
serde = { version = "=1.0.229", features = ["derive"] }
serde_json = { version = "=1.0.154", features = ["preserve_order", "float_roundtrip"] }
syn = { version = "=2.0.119", features = ["full", "visit", "extra-traits"] }
toml = "=0.8.23"
walkdir = "=2.5.0"
