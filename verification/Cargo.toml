[package]
name = "remote_agents"
version = "0.1.0"
edition = "2021"
publish = false

[dependencies]
base64 = "*"
shlex = "*"
which = "*"
serde_json = "*"
uuid = { version = "*", features = ["v4"] }
json-patch = "*"
dirs = "*"
serde = { version = "*", features = ["derive"] }
tokio = { version = "*", features = ["full"] }
tokio-stream = "*"
futures = "*"
async-trait = "*"
axum = { version = "*", features = ["ws"] }
crossterm = "*"
command-group = { version = "*", features = ["with-tokio"] }
