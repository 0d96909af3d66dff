[package]
name = "ccfs"
version = "0.1.0"
edition = "2021"
publish = false

[dependencies]
actix-multipart = { version = "0.7", default-features = false }
actix-web = { version = "4", default-features = false, features = ["macros"] }
chrono = { version = "0.4", default-features = false, features = ["clock", "std"] }
dirs = "5"
futures = "0.3"
pnet = "*"
rand = "0.8"
reqwest = { version = "0.12", default-features = false, features = ["json", "multipart", "stream"] }
serde = { version = "1", features = ["derive"] }
serde_json = "1"
slice-group-by = "0.3"
tokio = { version = "1", features = ["fs", "io-util", "macros", "rt-multi-thread", "time"] }
uuid = { version = "1", features = ["serde", "v4"] }
