[package]
name = "zed-highlight"
version = "0.1.4"
edition = "2021"
publish = false

[dependencies]
regex = "1"
serde_json = "1"
tokio = { version = "1", features = ["io-std", "macros", "rt-multi-thread", "sync", "time"] }
tower-lsp = "0.20"
zed_extension_api = "*"
