[package]
name = "rssread"
version = "0.1.0"
edition = "2021"
publish = false

[dependencies]
RustyXML = "*"
chrono = "*"
reqwest = { version = "*", default-features = false, features = ["blocking"] }
unicode-segmentation = "*"
