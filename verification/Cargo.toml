[package]
name = "forge"
version = "0.1.0"
edition = "2021"
publish = false

[dependencies]
blake3 = "*"
slug = "*"
chrono = "*"
serde = { version = "*", features = ["derive"] }
serde_json = "*"
serde_yaml_ng = "*"
toml = "*"
tera = "*"
rss = "*"
pulldown-cmark = "*"
syntect = { version = "*", default-features = false, features = ["default-fancy"] }
walkdir = "*"
rayon = "*"
thiserror = "*"
clap = { version = "*", features = ["derive"] }
tokio = { version = "*", features = ["full"] }
axum = "*"
notify = "*"
tower-http = { version = "*", features = ["fs"] }
tower-livereload = "*"
tracing = "*"
tracing-subscriber = { version = "*", features = ["env-filter"] }
