[package]
name = "stem_engine"
version = "0.1.0"
edition = "2021"
publish = false

[dependencies]
log = "0.4"
sha2 = "0.10"
symphonia = { version = "0.5", features = ["mp3"] }
