[package]
name = "mailtempest"
version = "0.1.0"
edition = "2021"
publish = false

[dependencies]
async-channel = "1"
async-imap = { version = "0.9", default-features = false, features = ["runtime-tokio"] }
async-native-tls = { version = "0.5", default-features = false, features = ["runtime-tokio"] }
csv = "1"
env_logger = "0.10"
futures = "0.3"
log = "0.4"
mail-parser = "0.8"
mail-send = "0.4"
rand = "0.8"
structopt = "0.3"
thiserror = "1"
tokio = { version = "1", features = ["rt-multi-thread", "net", "time", "io-util", "macros"] }
uuid = { version = "1", features = ["v4"] }
