[package]
name = "drc"
version = "0.1.0"
edition = "2021"
publish = false

[dependencies]
tokio = { version = "1", features = ["net", "rt", "rt-multi-thread", "time", "sync", "macros"] }
pnet = "0.35"
