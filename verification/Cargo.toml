[package]
name = "cocuyo"
version = "0.1.0"
edition = "2021"
publish = false

[dependencies]
wiz-lights-rs = "*"
serde = { version = "1", features = ["derive"] }
toml = "*"
dirs = "*"
tokio = { version = "1", features = ["rt-multi-thread", "macros", "time", "net", "sync"] }
futures = "0.3"
