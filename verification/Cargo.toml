[package]
name = "tars_stream"
version = "0.1.0"
edition = "2021"
publish = false

[dependencies]
bytes = "*"
quick-error = "*"

[dev-dependencies]
rand = "*"
uuid = { version = "*", features = ["v4"] }
