[package]
name = "azodoc"
version = "0.1.0"
edition = "2021"
publish = false

[dependencies]
quick-xml = "=0.42.0"
zip = { version = "=9.2.2", default-features = false, features = ["deflate"] }
ulid = "=1.2.1"
serde_json = { version = "=1.0.154", features = ["preserve_order"] }
sha2 = "=0.10.9"
comrak = { version = "=0.59.0", default-features = false }
serde = { version = "*", features = ["derive"] }
base64 = "*"
tungstenite = "*"
html5ever = "0.27"
markup5ever_rcdom = "0.3"
tendril = "0.4"
