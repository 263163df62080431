[package]
name = "piow"
version = "0.1.0"
edition = "2021"
publish = false

[dependencies]
indexmap = { version = "2", features = ["serde"] }
swayipc-async = "2"
serde = { version = "1", features = ["derive"] }
serde_derive = "1"
toml = "0.5"
log = "0.4"
env_logger = "0.9"
syslog = "6"
docopt = "1"
dirs = "4"
failure = "0.1"
anyhow = "1"
futures-util = "0.3"
sysinfo = "0.29"
tokio = { version = "1", features = ["macros", "rt-multi-thread"] }
