[package]
name = "markup_pdf"
version = "0.1.0"
edition = "2021"
publish = false

[dependencies]
printpdf = { version = "0.6", features = ["embedded_images"] }
rusttype = "0.9"
taffy = "0.2"
