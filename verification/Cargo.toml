[package]
name = "freezer"
version = "0.1.0"
edition = "2021"
publish = false

[dependencies]
actix-web = { version = "4", default-features = false, features = ["macros", "cookies"] }
actix-identity = "*"
actix-session = { version = "*", features = ["cookie-session"] }
serde = { version = "*", features = ["derive"] }
serde_json = "*"
