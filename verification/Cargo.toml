[package]
name = "streamq"
version = "0.1.0"
edition = "2021"
publish = false

[dependencies]
hex = "=0.4.3"
openssl = "=0.10.81"
deadpool-redis = { version = "=0.23.1", features = ["streams"] }
tokio = { version = "=1.53.2", features = ["rt-multi-thread", "macros", "sync", "time"] }
chrono = "=0.4.45"
lettre = { version = "=0.11.23", default-features = false, features = ["smtp-transport", "builder", "tokio1"] }
log = "=0.4.34"
