[package]
name = "blog_builder"
version = "0.1.0"
edition = "2021"
publish = false

[dependencies]
comrak = { version = "0.12", default-features = false }
dotenv = "0.15"
regex = "1"
syntect = { version = "4.6", default-features = false, features = ["default-fancy"] }
