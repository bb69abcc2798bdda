[package]
name = "dataplane"
version = "0.1.0"
edition = "2021"
publish = false

[dependencies]
csscolorparser = "*"
opencl3 = "*"
clap = { version = "*", features = ["derive"] }
serde = { version = "*", features = ["derive"] }
serde_jsonrc = "*"
toml = "*"
csv = "*"
tokio = { version = "*", features = ["rt-multi-thread", "time", "fs", "macros"] }
