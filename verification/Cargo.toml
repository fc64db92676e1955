[package]
name = "blog_cli_core"
version = "0.1.0"
edition = "2021"
publish = false

[dependencies]
unicode-width = "=0.2.2"
anyhow = "*"
clap = { version = "*", features = ["derive"] }
colored = "*"
owo-colors = "*"
reqwest = { version = "*", default-features = false, features = ["json", "query"] }
serde = { version = "*", features = ["derive"] }
