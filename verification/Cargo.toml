[package]
name = "kb_app"
version = "0.1.0"
edition = "2021"
publish = false

[dependencies]
hex = "=0.4.3"
sha2 = "=0.10.9"
quick-xml = "=0.38.4"
zip = { version = "=9.2.2", default-features = false, features = ["deflate"] }
html2text = "=0.17.4"
serde_json = "=1.0.154"
serde_yaml_ng = "=0.10.0"
scraper = "*"
directories = "*"
fs2 = "*"
