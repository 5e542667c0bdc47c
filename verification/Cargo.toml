[package]
name = "volex"
version = "0.1.0"
edition = "2021"
publish = false

[dependencies]
ariadne = "0.5"
base64 = "0.22"
bytes = "1"
clap = { version = "4", features = ["derive"] }
env_logger = "0.11"
http-body-util = "0.1"
hyper = { version = "1", features = ["client", "server", "http1"] }
hyper-util = { version = "0.1", features = ["tokio"] }
log = "0.4"
lsp-server = "0.7"
lsp-types = "0.95"
pathdiff = "0.2"
serde = { version = "1", features = ["derive"] }
serde_json = "1"
tokio = { version = "1", features = ["rt", "net", "sync", "io-util", "macros", "time"] }
