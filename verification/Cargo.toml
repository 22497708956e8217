[package]
name = "spotted"
version = "0.1.0"
edition = "2021"
publish = false

[dependencies]
qrcodegen = "1.8"
image = { version = "0.24", default-features = false, features = ["jpeg", "png"] }
imageproc = { version = "0.23", default-features = false }
rusttype = "0.9"
serde_json = "1"
tokio = { version = "1", features = ["macros", "rt-multi-thread"] }
google-sheets4 = "6"
fltk = "1"
