[package]
name = "picc"
version = "0.1.0"
edition = "2021"
publish = false

[dependencies]
urlencoding = "=2.1.3"
dotenvy = "=0.15.7"
log = "=0.4.35"
pretty_env_logger = "=0.5.0"
teloxide = "=0.17.0"
takecell = ">=0.1.0, <0.1.2"
tokio = { version = "=1.54.1", features = ["macros", "rt-multi-thread"] }
rusqlite = "=0.41.1"
serde_json = "=1.0.154"
reqwest = { version = "=0.12.28", features = ["blocking", "json"] }
objc2 = "=0.6.5"
objc2-foundation = "=0.3.2"
objc2-core-foundation = "=0.3.2"
objc2-core-graphics = "=0.3.2"
objc2-vision = "=0.3.2"
