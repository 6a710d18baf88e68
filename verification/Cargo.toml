[package]
name = "mseq"
version = "0.1.0"
edition = "2021"
publish = false

[dependencies]
csv = "1"
fs-err = "*"
hashbrown = "*"
log = "0.4"
midir = "*"
midly = "*"
promptly = "*"
rand = "0.8"
serde = { version = "1", features = ["derive"] }
spin_sleep = "*"
thiserror = "1"
toml = "*"
