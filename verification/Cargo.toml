[package]
name = "benford_crawl"
version = "0.1.0"
edition = "2021"
publish = false

[dependencies]
scraper = "*"
url = "*"
clap = "2"
reqwest = { version = "*", default-features = false, features = ["blocking"] }
