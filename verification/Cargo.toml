[package]
name = "sleepy_launcher"
version = "0.1.0"
edition = "2021"
publish = false

[dependencies]
md-5 = "0.10"
serde_json = "1"
anyhow = "1"
tracing = "0.1"
minreq = { version = "2", features = ["https"] }
cached = "0.56"
unic-langid = { version = "0.9", features = ["macros"] }
