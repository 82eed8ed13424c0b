[package]
name = "podsync"
version = "0.1.0"
edition = "2021"
publish = false

[dependencies]
serde_json = "1"
comrak = "*"
html2md = "*"
html-escape = "*"
ureq = { version = "2", features = ["json"] }
serde = { version = "1", features = ["derive"] }
serde_yaml = "*"
minijinja = { version = "*", features = ["loader"] }
chrono = "0.4"
chrono-tz = "*"
rss = "2"
tokio = { version = "1", features = ["fs", "macros", "rt-multi-thread"] }
tracing = "0.1"
tracing-subscriber = { version = "0.3", features = ["env-filter", "fmt"] }
