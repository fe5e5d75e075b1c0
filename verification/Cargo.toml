[package]
name = "raddex"
version = "0.1.0"
edition = "2021"
publish = false

[dependencies]
arc-swap = "1"
async-trait = "0.1"
clap = { version = "4", features = ["derive"] }
libc = "0.2"
openssl = "0.10"
pingora = { version = "*", features = ["openssl", "lb"] }
prometheus = "*"
serde = { version = "1", features = ["derive"] }
serde_json = "1"
socket2 = { version = "*", features = ["all"] }
thiserror = "*"
tokio = { version = "1", features = ["full"] }
tokio-openssl = "0.6"
tracing = "0.1"
