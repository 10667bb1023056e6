[package]
name = "xanq"
version = "0.1.0"
edition = "2021"
publish = false

[dependencies]
bytes = "1"
xancode = "*"
tokio = { version = "1", features = ["net", "sync", "rt", "rt-multi-thread", "macros", "io-util"] }
async-trait = "0.1"
log = "0.4"
