[package]
name = "gyre"
version = "0.1.0"
edition = "2021"
publish = false

[dependencies]
arboard = "=3.7.0"
ast-grep-core = "=0.36.3"
base64 = "=0.22.1"
clap = { version = "=4.6.7", features = ["derive"] }
futures-util = "=0.3.34"
image = { version = "=0.25.10", default-features = false, features = ["png"] }
nix = { version = "=0.31.3", features = ["process", "signal"] }
rustyline = "=19.0.0"
serde = { version = "=1.0.229", features = ["derive"] }
serde_json = "=1.0.154"
tempfile = "=3.27.0"
tokio = { version = "=1.54.1", features = ["io-std", "io-util", "macros", "net", "process", "rt-multi-thread", "signal", "sync", "time"] }
tokio-tungstenite = "=0.30.0"
toml = "=1.1.8"
tree-sitter = "=0.24.7"
tree-sitter-go = "=0.23.4"
tree-sitter-javascript = "=0.23.1"
tree-sitter-python = "=0.23.6"
tree-sitter-rust = "=0.23.3"
tree-sitter-typescript = "=0.23.2"
url = "=2.5.8"
uuid = { version = "=1.29.0", features = ["v4"] }
