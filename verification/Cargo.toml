[package]
name = "bad_apple_flut"
version = "0.1.0"
edition = "2021"
publish = false

[dependencies]
clap = { version = "*", features = ["derive"] }
clap-serde-derive = "*"
colored = "*"
crossterm = "*"
dirs = "*"
rayon = "*"
serde = { version = "*", features = ["derive"] }
tokio = { version = "*", features = ["full"] }
toml = "*"
