[package]
name = "hashassin_core"
version = "0.1.0"
edition = "2021"
publish = false

[dependencies]
clap = { version = "=4.6.7", features = ["derive"] }
hex = "=0.4.3"
md-5 = "=0.10.6"
rand = "=0.9.5"
scrypt = "=0.11.0"
sha2 = "=0.10.9"
tracing = "=0.1.44"
tracing-subscriber = { version = "=0.3.23", features = ["env-filter"] }
