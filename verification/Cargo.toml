[package]
name = "font_icons_scraper"
version = "0.1.0"
edition = "2021"
publish = false

[dependencies]
url = "*"
clap = { version = "*", features = ["derive"] }
tokio = { version = "*", features = ["macros", "rt-multi-thread"], default-features = false }
reqwest = { version = "*", default-features = false }
ttf-parser = "*"
