[package]
name = "strapper"
version = "0.1.0"
edition = "2021"
publish = false

[dependencies]
anyhow = "1"
env_logger = "0.8"
eui48 = { version = "1.1", default-features = false }
futures = "0.3"
futures-util = "0.3"
ipnet = "2"
itertools = "0.10"
libc = "0.2"
log = "0.4"
prost = "0.7"
regex = "1"
reqwest = { version = "0.11", default-features = false, features = ["json"] }
rtnetlink = "0.7"
serde = { version = "1", features = ["derive"] }
serde_json = "1"
structopt = "0.3"
systemd = "0.8"
tokio = { version = "1", features = ["rt", "rt-multi-thread", "macros", "fs", "time", "net"] }
tonic = "0.4"
