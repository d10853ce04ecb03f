[package]
name = "h5i_browser"
version = "0.1.0"
edition = "2021"
publish = false

[dependencies]
anyrender = "0.6"
anyrender_vello_cpu = "0.8"
blitz-dom = "0.2"
blitz-html = "0.2"
blitz-paint = "0.2"
blitz-traits = "0.2"
parley = "0.6"
url = "=2.5.8"
flate2 = "=1.1.10"
brotli = "=9.1.1"
base64 = "=0.22.1"
image = { version = "0.25", default-features = false, features = ["png", "jpeg"] }
reqwest = { version = "=0.12.28", default-features = false, features = ["blocking", "rustls-tls"] }
serde = { version = "1", features = ["derive"] }
serde_json = "1"
clap = { version = "4", default-features = false, features = ["derive", "std", "help", "usage", "error-context"] }
toml = "*"
encoding_rs = "0.8"
