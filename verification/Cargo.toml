[package]
name = "cc_ftp"
version = "0.1.0"
edition = "2021"
publish = false

[dependencies]
flate2 = "*"
actix = "*"
actix-web = "*"
actix-web-actors = "*"
actix-files = "*"
notify = "*"
tokio = { version = "*", features = ["sync", "macros", "rt-multi-thread"] }
parking_lot = "*"
