[package]
name = "pingcore"
version = "0.1.0"
edition = "2021"
publish = false

[dependencies]
rand = "*"
dns-lookup = "*"
surge-ping = "*"
tokio = { version = "*", default-features = false, features = ["rt-multi-thread", "time", "macros"] }
