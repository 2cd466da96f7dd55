[package]
name = "html_to_adf"
version = "0.1.0"
edition = "2021"
publish = false

[dependencies]
scraper = "*"
ego-tree = "*"
serde_json = "*"
