[package]
name = "rustypet"
version = "0.1.0"
edition = "2021"
publish = false

[dependencies]
base64 = "0.22"
image = { version = "0.25", default-features = false, features = ["png"] }
quick-xml = "0.37"
rand = "0.9"
thiserror = "2"
tokio = { version = "1", features = ["rt-multi-thread", "macros", "time", "sync"] }
zbus = { version = "5", default-features = false, features = ["tokio"] }
