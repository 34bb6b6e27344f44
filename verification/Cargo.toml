[package]
name = "ump_proxy"
version = "0.1.0"
edition = "2021"
publish = false

[dependencies]
blake3 = "*"
actix-web = { version = "*", default-features = false, features = ["macros"] }
reqwest = { version = "*", default-features = false, features = ["stream"] }
tokio = { version = "*", default-features = false, features = ["rt"] }
futures-util = "*"
bytes = "*"
http = "*"
once_cell = "*"
qstring = "*"
regex = "*"
listenfd = "*"
image = { version = "*", default-features = false, features = ["jpeg"] }
libwebp-sys = "*"
ravif = "*"
rgb = "*"
serde_json = "*"
base64 = "*"
prost = "*"
thiserror = "*"
