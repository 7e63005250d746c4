[package]
name = "langcodec_cli"
version = "0.1.0"
edition = "2021"
publish = false

[dependencies]
unic-langid = "*"
serde = { version = "*", features = ["derive"] }
serde_json = "*"
serde_yaml = "*"
toml = "*"
globset = "*"
ignore = "*"
rayon = "*"
clap = { version = "*", features = ["derive"] }
clap_complete = "*"
crossterm = "*"
ratatui = "*"
tokio = { version = "*", features = ["rt-multi-thread", "sync", "macros"] }
async-trait = "*"
mentra = "*"
