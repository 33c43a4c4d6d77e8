[package]
name = "whixp_transport"
version = "0.1.0"
edition = "2021"
publish = false

[dependencies]
trust-dns-resolver = "0.23"
ureq = "2"
serde_json = "1"
rustls = "0.23"
webpki-roots = "0.26"
tungstenite = "*"
