[package]
name = "mrpack_install"
version = "0.1.0"
edition = "2021"
publish = false

[dependencies]
sha1 = "0.10"
bytes = "1"
futures = "0.3"
tokio = { version = "1", features = ["rt", "io-util"] }
async_zip = { version = "*", features = ["deflate", "tokio"] }
reqwest = { version = "*", default-features = false, features = ["blocking", "rustls-tls"] }
