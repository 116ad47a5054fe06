[package]
name = "sdvx_b50"
version = "0.1.0"
edition = "2021"
publish = false

[dependencies]
base64 = "0.22"
encoding_rs = "0.8"
md-5 = "0.10"
rand = "0.8"
reqwest = { version = "0.12", default-features = false, features = ["json"] }
roxmltree = "0.20"
serde = { version = "1", features = ["derive"] }
serde_json = "1"
time = { version = "0.3", features = ["formatting", "macros"] }
