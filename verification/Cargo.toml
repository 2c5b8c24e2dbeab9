[package]
name = "planner_server"
version = "0.1.0"
edition = "2021"
publish = false

[dependencies]
rand = "*"
uuid = { version = "*", features = ["v4"] }
clap = { version = "*", features = ["derive"] }
futures-channel = "*"
futures-util = "*"
http-body-util = "*"
hyper = { version = "*", features = ["http1", "server"] }
hyper-util = { version = "*", features = ["tokio"] }
tokio = { version = "*", features = ["macros", "rt-multi-thread", "net", "time"] }
tokio-tungstenite = "*"
tracing = "*"
tracing-subscriber = "*"
url = "*"

[dev-dependencies]
serde_json = "*"
