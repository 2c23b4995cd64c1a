[package]
name = "hemmer"
version = "0.1.0"
edition = "2021"
publish = false

[dependencies]
lol_html = "*"
css-inline = { version = "*", default-features = false }
encre-css = "*"
minify-html = "*"
regex = "*"
thiserror = "*"
rustler = "*"
