[package]
name = "cdb_adm"
version = "0.1.0"
edition = "2021"
publish = false

[dependencies]
hex = "*"
plist = "*"
clap = { version = "*", features = ["derive"] }
serde = { version = "*", features = ["derive"] }
serde_json = "*"
toml = "*"
verynicetable = "*"
