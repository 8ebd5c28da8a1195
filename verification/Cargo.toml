[package]
name = "yourls"
version = "0.1.0"
edition = "2021"
publish = false

[dependencies]
url = "2.5"
regex = "1.12"
serde = { version = "1", features = ["derive"] }
serde_json = "1"
toml = "0.8"
chrono = { version = "0.4", default-features = false, features = ["clock"] }
ureq = { version = "2", default-features = false, features = ["native-tls"] }
native-tls = "0.2"
arboard = { version = "3", default-features = false }
gtk = "0.18"
glib = "0.18"
single-instance = "0.3"
crossbeam-channel = "0.5"
