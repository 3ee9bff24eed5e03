[package]
name = "bridget_bot"
version = "0.1.0"
edition = "2021"
publish = false

[dependencies]
prost = "0.13"
rand = "0.8"
rand_pcg = "0.3"
tokio = { version = "1", features = ["rt-multi-thread"] }
tokio-stream = "0.1"
tonic = "0.12"
