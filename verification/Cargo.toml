[package]
name = "attic"
version = "0.1.0"
edition = "2021"
publish = false

[dependencies]
anyhow = "1"
async-channel = "*"
async-trait = "*"
aws-config = { version = "*", default-features = false, features = ["rt-tokio"] }
aws-sdk-s3 = { version = "*", default-features = false, features = ["rt-tokio"] }
axum = { version = "*", default-features = false, features = ["http1", "json", "tokio", "matched-path"] }
axum-macros = "*"
base64 = "*"
bytes = "1"
chrono = { version = "0.4", default-features = false, features = ["clock", "std"] }
const_format = "*"
digest = "*"
futures = "*"
httpdate = "1"
indicatif = "*"
open = "*"
rand = "*"
reqwest = { version = "*", default-features = false, features = ["json", "stream", "form", "query"] }
sea-orm = { version = "*", default-features = false, features = ["macros", "runtime-tokio", "sqlx-sqlite"] }
sea-orm-migration = { version = "*", default-features = false, features = ["runtime-tokio", "sqlx-sqlite"] }
serde = { version = "1", features = ["derive"] }
serde_json = "1"
serde_with = { version = "*", default-features = false, features = ["macros", "std"] }
sha2 = "*"
tikv-jemallocator = "*"
tokio = { version = "1", features = ["rt-multi-thread", "macros", "net", "io-util", "sync", "time"] }
tokio-util = { version = "*", features = ["io"] }
tower-http = { version = "*", features = ["catch-panic", "trace"] }
tracing = "*"
uuid = { version = "1", features = ["v4"] }
