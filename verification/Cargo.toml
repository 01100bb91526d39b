[package]
name = "profiles"
version = "0.1.0"
edition = "2021"
publish = false

[dependencies]
futures = "0.1"
http = "0.1"
indexmap = "1.0"
log = "0.4"
regex = "1.0"
tower-discover = "0.1"
tower-service = "0.2"
