[package]
name = "blog_service"
version = "0.1.0"
edition = "2021"
publish = false

[dependencies]
chrono = "0.4"
regex = "1"
pulldown-cmark = { version = "*", default-features = false, features = ["html"] }
pulldown-cmark-toc = "*"
handlebars = "*"
serde_json = "1"
walkdir = "2"
actix-web = { version = "4", default-features = false, features = ["macros"] }
actix-rt = "2"
