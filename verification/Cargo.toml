[package]
name = "labbridger"
version = "0.1.0"
edition = "2021"
publish = false

[dependencies]
actix-web = { version = "4", default-features = false, features = ["macros"] }
bcrypt = "0.15"
chrono = { version = "0.4", features = ["serde"] }
config = { version = "0.14", default-features = false, features = ["yaml"] }
futures-util = "0.3"
rand = "0.8"
reqwest = { version = "0.12", default-features = false, features = ["json", "stream"] }
serde = { version = "1", features = ["derive"] }
surge-ping = "0.8"
tokio = { version = "1", features = ["full"] }
wake-on-lan = "0.2"
