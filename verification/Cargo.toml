[package]
name = "cognito_login"
version = "0.1.0"
edition = "2021"
publish = false

[dependencies]
serde_json = "*"
rusoto_core = { version = "0.48", default-features = false, features = ["rustls"] }
rusoto_cognito_idp = { version = "0.48", default-features = false, features = ["rustls"] }
tokio = { version = "1", features = ["macros", "rt-multi-thread"] }
dotenv = "*"
rpassword = "*"
