[package]
name = "dls3"
version = "0.1.0"
edition = "2021"
publish = false

[dependencies]
rust-s3 = { version = "=0.35.1", default-features = false, features = ["use-tokio-native-tls"] }
aws-sdk-s3 = "=1.157.0"
tokio = { version = "=1.54.1", features = ["full"] }
snafu = "=0.8.9"
tracing = "=0.1.44"
tracing-subscriber = { version = "=0.3.23", features = ["env-filter"] }
rustix = { version = "=1.1.6", features = ["fs", "process"] }
dirs = "=6.0.0"
pico-args = "=0.5.0"
