[package]
name = "grpcurl"
version = "0.1.0"
edition = "2021"
publish = false

[dependencies]
base64 = "*"
serde_json = "*"
prost = "*"
prost-types = "*"
prost-reflect = { version = "*", features = ["serde", "text-format"] }
protox = "*"
clap = { version = "*", features = ["derive"] }
tokio = { version = "*", features = ["rt-multi-thread", "macros", "sync", "io-std", "io-util"] }
tonic = "*"
tonic-reflection = "*"
tokio-stream = "*"
http = "*"
async-trait = "*"
