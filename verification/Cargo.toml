[package]
name = "ji_chan"
version = "0.1.0"
edition = "2021"
publish = false

[dependencies]
rand = "=0.8.8"
slugify = "=0.1.0"
unicode_hfwidth = "=0.2.0"
serde_json = "=1.0.154"
reqwest = { version = "=0.11.27", default-features = false, features = ["rustls-tls"] }
serenity = "=0.11.7"
