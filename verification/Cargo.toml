[package]
name = "frostscan"
version = "0.1.0"
edition = "2021"
publish = false

[dependencies]
crossbeam-channel = "=0.5.17"
iced = { version = "=0.14.0", features = ["canvas", "tokio"] }
sysinfo = { version = "=0.40.1", default-features = false, features = ["disk"] }
thiserror = "=2.0.21"
tracing = "=0.1.44"
tracing-subscriber = { version = "=0.3.23", default-features = false, features = ["fmt"] }
treemap = "=0.3.2"
