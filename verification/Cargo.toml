[package]
name = "agni"
version = "0.1.0"
edition = "2021"
publish = false

[dependencies]
anyhow = "1"
bytes = "1"
chrono = "0.4"
futures = "0.3"
headers = "0.3"
hyper = { version = "0.14", features = ["server", "http1", "tcp", "stream"] }
lru-cache = "0.1"
mime_guess = "2"
percent-encoding = "2"
pnet = "*"
regex = "1"
routerify = "3"
roxmltree = "*"
socket2 = { version = "0.4", features = ["all"] }
strong-xml = "0.6"
tokio = { version = "1", features = ["full"] }
tokio-util = { version = "0.7", features = ["codec", "io"] }
tracing = "0.1"
tracing-bunyan-formatter = "0.3"
tracing-subscriber = { version = "0.3", features = ["env-filter"] }
url = "2"
uuid = { version = "1", features = ["v4"] }
