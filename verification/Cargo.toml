[package]
name = "networkquality"
version = "0.1.0"
edition = "2021"
publish = false

[dependencies]
anyhow = "1"
boring = "4"
bytes = "1"
clap = { version = "4", features = ["derive"] }
clap-verbosity-flag = "2"
futures = "0.3"
http = "=1.5.0"
http-body-util = "0.1"
humansize = "=2.1.3"
hyper = { version = "1", features = ["client", "http1", "http2"] }
hyper-util = { version = "0.1", features = ["tokio"] }
pin-project-lite = "0.2"
rand = "=0.8.8"
rustls = { version = "0.23", default-features = false, features = ["ring", "std"] }
rustls-native-certs = "0.7"
serde = { version = "1", features = ["derive"] }
serde_json = "1"
slotmap = "1"
tokio = { version = "1", features = ["full"] }
tokio-boring = "4"
tokio-util = "0.7"
tracing = "0.1"
tracing-subscriber = { version = "0.3", features = ["env-filter"] }
turnclient = "=0.5.0"
url = "=2.5.8"
webrtc = "=0.12.0"
