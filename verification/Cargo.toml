[package]
name = "sitegen"
version = "0.1.0"
edition = "2021"
publish = false

[dependencies]
extract-frontmatter = "*"
handlebars = "*"
natural-sort-rs = "*"
pulldown-cmark = "*"
serde_json = "*"
similar = "*"
syntect = "*"
walkdir = "*"
yaml-rust = "*"
zip = "*"
