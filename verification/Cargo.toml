[package]
name = "rustyrts"
version = "0.1.0"
edition = "2021"
publish = false

[dependencies]
console = "=0.15.11"
globset = { version = "0.4", default-features = false }
pulldown-cmark = { version = "=0.10.3", default-features = false }
serde_json = "=1.0.154"
unicode-xid = "=0.2.6"
