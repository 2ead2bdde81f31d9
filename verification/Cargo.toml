[package]
name = "luau_sifter"
version = "0.1.0"
edition = "2021"
publish = false

[dependencies]
bincode = "1.3"
byteorder = "1"
chrono = "0.4"
clap = { version = "4", features = ["derive"] }
log = "0.4"
log4rs = "1"
md5 = "0.7"
multimap = "0.10"
rangemap = "1"
regex = "1"
serde = { version = "1", features = ["derive"] }
serde_json = "1"
