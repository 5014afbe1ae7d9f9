[package]
name = "schemafy"
version = "0.1.0"
edition = "2021"
publish = false

[dependencies]
Inflector = { version = "0.11", default-features = false }
quote = "0.3"
serde = "1"
serde_derive = "1"
serde_json = "1"
