[package]
name = "fm_tester"
version = "0.1.0"
edition = "2021"
publish = false

[dependencies]
aes-gcm = "=0.10.3"
base64 = "=0.22.1"
chrono = "=0.4.45"
rand = "=0.8.8"
urlencoding = "=2.1.3"
serde = { version = "=1.0.229", features = ["derive"] }
serde_json = "=1.0.154"
url = "=2.5.8"
md5 = "=0.7.0"
sha2 = "=0.10.9"
hmac = "=0.12.1"
quick-xml = "=0.31.0"
reqwest = { version = "=0.11.27", default-features = false, features = ["rustls-tls", "json", "stream"] }
tokio = { version = "=1.54.1", features = ["rt", "time", "sync", "net"] }
futures-util = { version = "=0.3.34", features = ["sink"] }
rquickjs = "=0.6.2"
hyper = { version = "=0.14.32", features = ["client", "http1", "http2"] }
rustls = "=0.21.12"
tokio-rustls = "=0.24.1"
rustls-native-certs = "=0.6.3"
tokio-tungstenite = { version = "=0.20.1", features = ["rustls-tls-native-roots"] }
croner = "2"
jsonschema = { version = "0.17", default-features = false }
