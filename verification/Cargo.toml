[package]
name = "ip_tools"
version = "0.1.0"
edition = "2021"
publish = false

[dependencies]
bytes = "*"
clap = { version = "4", features = ["cargo"] }
h2 = "*"
h3 = "*"
h3-quinn = "*"
hickory-resolver = { version = "*", features = ["serde"] }
http-body-util = "*"
hyper = { version = "1", features = ["client", "http1"] }
hyper-util = { version = "*", features = ["tokio"] }
libc = "0.2"
local-ip-address = "*"
quinn = { version = "*", default-features = false, features = ["runtime-tokio", "rustls-ring"] }
rustls = { version = "0.23", default-features = false, features = ["ring", "std", "tls12"] }
serde = { version = "1", features = ["derive"] }
serde_json = "1"
thiserror = "*"
tokio = { version = "1", features = ["full"] }
tokio-rustls = { version = "*", default-features = false, features = ["ring", "tls12"] }
webpki-roots = "*"
