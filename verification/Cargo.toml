[package]
name = "redirectionio"
version = "0.1.0"
edition = "2021"
publish = false

[dependencies]
regex = "=1.13.1"
heck = "=0.5.0"
sxd-document = "=0.3.2"
sxd-xpath = "=0.4.2"
lol_html = "=3.0.3"
flate2 = "=1.1.10"
brotli = "=9.1.1"
serde = { version = "=1.0.229", features = ["derive"] }
serde_json = "=1.0.154"
http = "=1.5.0"
url = "=2.5.8"
percent-encoding = "=2.3.2"
linked-hash-map = "=0.5.6"
cidr = "=0.3.2"
log = "=0.4.35"
chrono = { version = "0.4", features = ["serde"] }
