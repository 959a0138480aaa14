[package]
name = "rusty_cli"
version = "0.1.0"
edition = "2021"
publish = false

[dependencies]
anyhow = "*"
async-trait = "*"
blake3 = "*"
clap = { version = "*", features = ["derive"] }
colored = "*"
dirs = "*"
dotenvy = "*"
futures-util = "*"
html-escape = "*"
reqwest = { version = "*", default-features = false, features = ["json", "rustls-tls"] }
serde = { version = "*", features = ["derive"] }
serde_json = "*"
strip-ansi-escapes = "*"
thiserror = "*"
tinytemplate = "*"
tokio = { version = "*", features = ["full"] }
tokio-stream = "*"
toml = "*"
