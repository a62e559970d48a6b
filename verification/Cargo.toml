[package]
name = "deadwiki"
version = "0.1.0"
edition = "2021"
publish = false

[dependencies]
percent-encoding = "*"
autolink = "*"
pulldown-cmark = "*"
tiny_http = "*"
threadpool = "*"
ascii = "*"
tinytemplate = "*"
serde = { version = "1", features = ["derive"] }
vial = "*"
tenjin = "*"
hatter = "*"
