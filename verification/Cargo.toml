[package]
name = "ikill"
version = "0.1.0"
edition = "2021"
publish = false

[dependencies]
anyhow = "*"
colored = "=3.1.1"
notify-rust = { version = "*", default-features = false, features = ["z"] }
shlex = "=2.0.1"
skim = { version = "*", default-features = false }
tabular = "=0.2.0"
