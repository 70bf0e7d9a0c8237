[package]
name = "r503d"
version = "1.0.0"
edition = "2021"
publish = false

[dependencies]
anyhow = "1"
clap = { version = "4", features = ["derive"] }
enumflags2 = "0.7"
futures-util = "0.3"
getrandom = "0.3"
libc = "0.2"
serde = { version = "1", features = ["derive"] }
serde_json = "1"
serialport = { version = "4", default-features = false }
thiserror = "2"
tokio = { version = "1", features = ["full"] }
tracing = "0.1"
tracing-subscriber = { version = "0.3", features = ["env-filter"] }
tss-esapi = "7"
zbus = { version = "5", default-features = false, features = ["tokio"] }
zbus_polkit = "5"
zeroize = "1"

[dev-dependencies]
siphasher = "1"
