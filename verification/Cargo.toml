[package]
name = "quotelinks"
version = "0.1.0"
edition = "2021"
publish = false

[dependencies]
rand = "0.9"
uuid = { version = "1", features = ["v4"] }
serde = { version = "1", features = ["derive"] }
actix-web = { version = "4", features = ["rustls-0_23"] }
actix-cors = "0.7"
actix-files = "0.6"
tokio = { version = "1", features = ["macros", "rt-multi-thread"] }
rustls = "0.23"
rustls-pemfile = "2"
