[package]
name = "hydration"
version = "0.1.0"
edition = "2021"
publish = false

[dependencies]
scraper = "*"
serde_json = "1"
json5 = "*"
htmlescape = "0.3"
tree-sitter = "*"
tree-sitter-javascript = "*"
