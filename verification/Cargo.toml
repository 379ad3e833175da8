[package]
name = "ohmyserial"
version = "0.1.0"
edition = "2021"
publish = false

[dependencies]
base64 = "=0.22.1"
sha2 = "=0.10.9"
chrono = { version = "=0.4.45", default-features = false, features = ["std", "clock"] }
uuid = { version = "=1.29.0", features = ["v4"] }
serde = { version = "=1.0.229", features = ["derive"] }
serde_json = "=1.0.154"
toml = "=0.8.23"
clap = { version = "=4.6.7", features = ["derive"] }
serialport = { version = "=4.10.1", default-features = false }
http = "=1.5.0"
fs2 = "=0.4.3"
nix = { version = "=0.29.0", default-features = false, features = ["term", "fs"] }
getrandom = "=0.4.3"
