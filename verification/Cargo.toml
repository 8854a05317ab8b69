[package]
name = "dataflow"
version = "0.1.0"
edition = "2021"
publish = false

[dependencies]
itertools = "0.10"
lentrait = "*"
rand = "0.8"
regex = "1"
serde = { version = "1", features = ["derive"] }
serde_json = "1"
tokenizers = "*"
