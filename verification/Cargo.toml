[package]
name = "snap_issue_reproducer"
version = "0.1.0"
edition = "2021"
publish = false

[dependencies]
anyhow = "1.0.104"
clap = { version = "4.6.7", default-features = false, features = ["derive", "std", "help", "usage"] }
tokio = { version = "1.53.2", default-features = false, features = ["rt", "macros", "time", "net"] }
tracing = "0.1.44"
tracing-subscriber = { version = "0.3.23", default-features = false, features = ["fmt"] }
url = "2.5.8"
