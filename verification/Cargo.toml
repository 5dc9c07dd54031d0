[package]
name = "lojix-macros"
version = "0.1.0"
edition = "2021"
publish = false

[dependencies]
proc-macro2 = "=1.0.107"
quote = "=1.0.47"
syn = { version = "=2.0.119", features = ["full"] }
serde_json = "=1.0.154"
unicode-ident = "=1.0.27"
