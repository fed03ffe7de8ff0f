[package]
name = "opencode_core"
version = "0.1.0"
edition = "2021"
publish = false

[dependencies]
uuid = { version = "*", features = ["v4"] }
git2 = "*"
clap = { version = "*", features = ["derive"] }
tokio = { version = "*", features = ["full"] }
serde = { version = "*", features = ["derive"] }
serde_yml = "*"
toml = "*"
directories = "*"
