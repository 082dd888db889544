[package]
name = "book_renderer"
version = "0.1.0"
edition = "2021"
publish = false

[dependencies]
handlebars = "=6.4.4"
pulldown-cmark = { version = "=0.13.5", default-features = false, features = ["html"] }
serde_json = "=1.0.154"
zip = { version = "=9.0.5", default-features = false, features = ["deflate"] }

[dev-dependencies]
regex = "=1.13.1"
