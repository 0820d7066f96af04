[package]
name = "lsproxy"
version = "0.1.0"
edition = "2021"
publish = false

[dependencies]
glob = "0.3"
regex = "1"
url = "2"
serde = { version = "1", features = ["derive"] }
serde_json = "1"
json5 = "0.4"
jsonwebtoken = "9"
polars = { version = "0.36", default-features = false, features = ["lazy"] }
lsp-types = "0.94"
tokio = { version = "1", features = ["full"] }
actix-web = "4"
actix-cors = "0.7"
async-trait = "0.1"
clap = { version = "4", features = ["derive"] }
env_logger = "0.11"
log = "0.4"
notify = "6"
notify-debouncer-mini = "0.4"
futures = "0.3"
futures-util = "0.3"
utoipa = { version = "4", features = ["actix_extras"] }
