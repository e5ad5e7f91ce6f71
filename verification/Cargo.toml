[package]
name = "http_streaming_envelope"
version = "0.1.0"
edition = "2021"
publish = false

[dependencies]
bytes = "1"
http = "1"
http-body = "1"
httpdate = "1"
pin-project-lite = "0.2"
thiserror = "2"
tower = "0.5"
