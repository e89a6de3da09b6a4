[package]
name = "starship_jj"
version = "0.1.0"
edition = "2021"
publish = false

[dependencies]
colored = "=3.1.1"
tinytemplate = "=1.2.1"
serde = { version = "*", features = ["derive"] }
serde_json = "*"
toml = "*"
dirs = "*"
clap = { version = "*", features = ["derive", "env"] }
futures = "*"
pollster = "*"
