[package]
name = "qiniu_upload"
version = "0.1.0"
edition = "2021"
publish = false

[dependencies]
anyhow = "*"
clap = { version = "*", features = ["derive"] }
clap_complete = "*"
colored = "*"
qiniu-uploader = "*"
qrcode = "*"
tokio = { version = "*", features = ["full"] }
